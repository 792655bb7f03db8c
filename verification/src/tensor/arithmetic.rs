//! Tensor arithmetic: matrix products, normalisation, attention.
//!
//! Scalars are opaque here. Each primitive takes the arithmetic it needs as
//! function values and promises which operands they are applied to, and in
//! which order.
use crate::accumulate::{
    fold_reaches, lemma_fold_push, lemma_len_fits, lemma_strided_in_bounds, mac_fold, mac_strided,
    strided, total2, total3,
};
use crate::backends::cpu::primitives::batch_matmul::{
    a_row, b_col, batch_matmul_naive, batch_operands_fit, batch_out_len,
};
use crate::error::{Error, ErrorKind, Result};
use crate::tensor::strider::{
    extents_positive, lemma_rank1, lemma_rank2, lemma_rank3, lemma_reach_nonnegative,
    lemma_row_major_span, suffix_product,
    TensorStrider,
};
use crate::tensor::tensor::CpuTensor;
use vstd::prelude::*;

verus! {

/// Accepts a tensor whose shape is exactly `shape`.
pub fn require_tensor_shape<T: Copy>(t: &CpuTensor<'_, T>, shape: &Vec<usize>) -> (r: Result<()>)
    ensures
        r is Ok <==> t.spec_shape() == shape@,
        r matches Err(e) ==> e.kind == ErrorKind::TensorShape && e.left@ == shape@ && e.right@
            == t.spec_shape(),
{
    let own = t.shape();
    if own.len() != shape.len() {
        return Err(Error::of_shapes(ErrorKind::TensorShape, shape, own));
    }
    let mut i: usize = 0;
    while i < own.len()
        invariant
            own@ == t.spec_shape(),
            own@.len() == shape@.len(),
            i <= own@.len(),
            own@.take(i as int) == shape@.take(i as int),
        decreases own.len() - i,
    {
        if own[i] != shape[i] {
            return Err(Error::of_shapes(ErrorKind::TensorShape, shape, own));
        }
        assert(own@.take(i + 1) =~= own@.take(i as int).push(own@[i as int]));
        assert(shape@.take(i + 1) =~= shape@.take(i as int).push(shape@[i as int]));
        i = i + 1;
    }
    assert(own@ =~= own@.take(i as int));
    assert(shape@ =~= shape@.take(i as int));
    Ok(())
}

/// Accepts a tensor that owns its storage.
pub fn require_tensor_owned<T: Copy>(t: &CpuTensor<'_, T>) -> (r: Result<()>)
    ensures
        r is Ok <==> t.spec_is_owned(),
        r matches Err(e) ==> e.kind == ErrorKind::TensorShape && e.left@ == t.spec_shape()
            && e.right@.len() == 0,
{
    if !t.is_owned() {
        return Err(Error::of_shape(ErrorKind::TensorShape, t.shape()));
    }
    Ok(())
}

/// Accepts a tensor whose rank is one of `dims`.
pub fn require_tensor_dims<T: Copy>(t: &CpuTensor<'_, T>, dims: &[usize]) -> (r: Result<()>)
    ensures
        r is Ok <==> dims@.contains(t.spec_shape().len() as usize),
        r matches Err(e) ==> e.kind == ErrorKind::TensorShape && e.left@ == t.spec_shape()
            && e.right@.len() == 0,
{
    let rank = t.shape().len();
    let mut i: usize = 0;
    while i < dims.len()
        invariant
            i <= dims@.len(),
            rank == t.spec_shape().len(),
            forall|j: int| 0 <= j < i ==> dims@[j] != rank,
        decreases dims.len() - i,
    {
        if dims[i] == rank {
            return Ok(());
        }
        i = i + 1;
    }
    Err(Error::of_shape(ErrorKind::TensorShape, t.shape()))
}

/// Accepts a pair of operands whose inner extents agree: the second extent
/// of `t1` equals the first extent of `t2`.
pub fn require_tensor_matmul_2d_shapes<T: Copy>(t1: &CpuTensor<'_, T>, t2: &CpuTensor<'_, T>) -> (r:
    Result<()>)
    requires
        t1.spec_shape().len() >= 2,
        t2.spec_shape().len() >= 1,
    ensures
        r is Ok <==> t1.spec_shape()[1] == t2.spec_shape()[0],
        r matches Err(e) ==> e.kind == ErrorKind::TensorShape && e.left@ == t1.spec_shape()
            && e.right@ == t2.spec_shape(),
{
    if t1.shape()[1] != t2.shape()[0] {
        return Err(Error::of_shapes(ErrorKind::TensorShape, t1.shape(), t2.shape()));
    }
    Ok(())
}

/// Accepts a densely packed tensor.
pub fn require_tensor_contiguous<T: Copy>(t: &CpuTensor<'_, T>) -> (r: Result<()>)
    requires
        t.wf(),
    ensures
        r is Ok <==> t.spec_is_contiguous(),
        r matches Err(e) ==> e.kind == ErrorKind::TensorShape && e.left@ == t.spec_shape()
            && e.right@.len() == 0,
{
    if !t.is_contiguous() {
        return Err(Error::of_shape(ErrorKind::TensorShape, t.shape()));
    }
    Ok(())
}


/// The error of a single operand that does not fit: it names the operand's
/// shape.
fn misfit<T: Copy>(t: &CpuTensor<'_, T>) -> (e: Error)
    ensures
        e.kind == ErrorKind::TensorShape,
        e.left@ == t.spec_shape(),
        e.right@.len() == 0,
{
    Error::of_shape(ErrorKind::TensorShape, t.shape())
}

/// The error of a pair of operands that do not fit: it names both shapes,
/// in the order of the operands.
fn misfit_pair<T: Copy>(a: &CpuTensor<'_, T>, b: &CpuTensor<'_, T>) -> (e: Error)
    ensures
        e.kind == ErrorKind::TensorShape,
        e.left@ == a.spec_shape(),
        e.right@ == b.spec_shape(),
{
    Error::of_shapes(ErrorKind::TensorShape, a.shape(), b.shape())
}

/// A three-axis descriptor with the given extents and strides.
fn lift3(e0: usize, e1: usize, e2: usize, s0: usize, s1: usize, s2: usize) -> (t: TensorStrider)
    requires
        e0 > 0 && e1 > 0 && e2 > 0,
        e0 * (e1 * e2) <= usize::MAX,
        (e0 - 1) * s0 + (e1 - 1) * s1 + (e2 - 1) * s2 < usize::MAX,
    ensures
        t.wf(),
        t.spec_shape() == seq![e0, e1, e2],
        t.spec_strides() == seq![s0, s1, s2],
{
    let shape = vec![e0, e1, e2];
    let strides = vec![s0, s1, s2];
    proof {
        assert(shape@ =~= seq![e0, e1, e2]);
        assert(strides@ =~= seq![s0, s1, s2]);
        lemma_rank3(shape@, strides@);
    }
    match TensorStrider::with_strides(shape, strides) {
        Ok(t) => t,
        Err(_) => unreached(),
    }
}

/// A number below the modulus is its own remainder.
proof fn lemma_small(q: int, m: int)
    requires
        0 <= q < m,
    ensures
        q / m == 0,
        q % m == q,
{
    vstd::arithmetic::div_mod::lemma_fundamental_div_mod_converse(q, m, 0, q);
}

/// Runs the batched product of two lifted operands into a fresh, densely
/// packed tensor of the given shape. Where the output is too large, the
/// error names the shapes `left` and `right`.
fn product_into<'a, T: Copy, F: Fn(T, T, T) -> T>(
    wbuf: &[T],
    xbuf: &[T],
    w3: &TensorStrider,
    x3: &TensorStrider,
    out_shape: Vec<usize>,
    zero: T,
    step: &F,
    left: &Vec<usize>,
    right: &Vec<usize>,
) -> (r: Result<CpuTensor<'a, T>>)
    requires
        total3(*step),
        batch_operands_fit(*w3, *x3),
        w3.spec_span() < wbuf@.len(),
        x3.spec_span() < xbuf@.len(),
        extents_positive(out_shape@),
        suffix_product(out_shape@, 0) == batch_out_len(*w3, *x3),
    ensures
        r is Ok <==> batch_out_len(*w3, *x3) <= usize::MAX,
        r matches Ok(t) ==> {
            &&& t.wf()
            &&& t.spec_shape() == out_shape@
            &&& t.spec_is_contiguous()
            &&& t.spec_is_owned()
            &&& t@.len() == batch_out_len(*w3, *x3)
            &&& forall|p: int|
                0 <= p < t@.len() ==> mac_fold(
                    *step,
                    zero,
                    a_row(wbuf@, *w3, *x3, p),
                    b_col(xbuf@, *w3, *x3, p),
                    #[trigger] t@[p],
                )
        },
        r matches Err(e) ==> e.kind == ErrorKind::TensorShape && e.left@ == left@ && e.right@
            == right@,
{
    let layout = match TensorStrider::new(out_shape) {
        Ok(s) => s,
        Err(_) => {
            return Err(Error::of_shapes(ErrorKind::TensorShape, left, right));
        },
    };
    let total = layout.len();
    let mut buf: Vec<T> = Vec::new();
    let mut i: usize = 0;
    while i < total
        invariant
            i <= total,
            buf@.len() == i,
            forall|j: int| 0 <= j < i ==> buf@[j] == zero,
        decreases total - i,
    {
        buf.push(zero);
        i = i + 1;
    }
    batch_matmul_naive(wbuf, xbuf, buf.as_mut_slice(), w3, x3, step);
    CpuTensor::new(buf, crate::error::copy_shape(layout.shape()))
}


/// Number of columns of the right operand of a batched product: the extent
/// of its third axis, or one where it has only two.
pub open spec fn batch_cols<T: Copy>(x: &CpuTensor<'_, T>) -> int {
    if x.spec_shape().len() == 3 {
        x.spec_shape()[2] as int
    } else {
        1
    }
}

/// The operands a batched product accepts: `w` of shape `(a, m, k)`, `x` of
/// shape `(b, k)` or `(b, k, n)` with `a` a multiple of `b`, and an output
/// whose element count is a machine integer.
pub open spec fn batch_matmul_accepts<T: Copy>(w: &CpuTensor<'_, T>, x: &CpuTensor<'_, T>) -> bool {
    &&& w.spec_shape().len() == 3
    &&& (x.spec_shape().len() == 2 || x.spec_shape().len() == 3)
    &&& w.spec_shape()[0] % x.spec_shape()[0] == 0
    &&& w.spec_shape()[2] == x.spec_shape()[1]
    &&& w.spec_shape()[0] * (w.spec_shape()[1] * batch_cols(x)) <= usize::MAX
}

/// Shape of a batched product: `(a, m)` or `(a, m, n)`.
pub open spec fn batch_matmul_shape<T: Copy>(w: &CpuTensor<'_, T>, x: &CpuTensor<'_, T>) -> Seq<
    usize,
> {
    if x.spec_shape().len() == 3 {
        seq![w.spec_shape()[0], w.spec_shape()[1], x.spec_shape()[2]]
    } else {
        seq![w.spec_shape()[0], w.spec_shape()[1]]
    }
}

/// Where the row of `w` that feeds output element `p` starts.
pub open spec fn batch_w_start<T: Copy>(w: &CpuTensor<'_, T>, x: &CpuTensor<'_, T>, p: int) -> int {
    let n = batch_cols(x);
    let m = w.spec_shape()[1] as int;
    ((p / n) / m) * w.spec_strides()[0] + ((p / n) % m) * w.spec_strides()[1]
}

/// Where the column of `x` that feeds output element `p` starts. The batch
/// of `x` is the output batch modulo the batch extent of `x`.
pub open spec fn batch_x_start<T: Copy>(w: &CpuTensor<'_, T>, x: &CpuTensor<'_, T>, p: int) -> int {
    let n = batch_cols(x);
    let m = w.spec_shape()[1] as int;
    let batch = ((p / n) / m) % (x.spec_shape()[0] as int);
    if x.spec_shape().len() == 3 {
        batch * x.spec_strides()[0] + (p % n) * x.spec_strides()[2]
    } else {
        batch * x.spec_strides()[0]
    }
}

/// Batched matrix product `w @ x`.
///
/// Output element `p`, counted in row-major order over `(a, m, n)`, is
/// accumulated from `zero` over the `k` pairs of row `(p / n) % m` of batch
/// `(p / n) / m` of `w` and column `p % n` of `x`, in ascending order of `k`.
pub fn tensor_batch_matmul<'a, 'b, T: Copy, F: Fn(T, T, T) -> T>(
    w: &CpuTensor<'a, T>,
    x: &CpuTensor<'a, T>,
    zero: T,
    step: F,
) -> (r: Result<CpuTensor<'b, T>>)
    requires
        w.wf(),
        x.wf(),
        total3(step),
    ensures
        r is Ok <==> batch_matmul_accepts(w, x),
        r matches Ok(out) ==> {
            &&& out.wf()
            &&& out.spec_is_contiguous()
            &&& out.spec_is_owned()
            &&& out.spec_shape() == batch_matmul_shape(w, x)
            &&& out@.len() == w.spec_shape()[0] * (w.spec_shape()[1] * batch_cols(x))
            &&& forall|p: int|
                0 <= p < out@.len() ==> mac_fold(
                    step,
                    zero,
                    strided(
                        w@,
                        batch_w_start(w, x, p),
                        w.spec_strides()[2] as int,
                        w.spec_shape()[2] as nat,
                    ),
                    strided(
                        x@,
                        batch_x_start(w, x, p),
                        x.spec_strides()[1] as int,
                        w.spec_shape()[2] as nat,
                    ),
                    #[trigger] out@[p],
                )
        },
        r matches Err(e) ==> {
            &&& e.kind == ErrorKind::TensorShape
            &&& e.left@ == w.spec_shape()
            &&& e.right@ == x.spec_shape()
        },
{
    let ws = w.shape();
    let xs = x.shape();
    if ws.len() != 3 || (xs.len() != 2 && xs.len() != 3) {
        return Err(Error::of_shapes(ErrorKind::TensorShape, ws, xs));
    }
    if ws[0] % xs[0] != 0 || ws[2] != xs[1] {
        return Err(Error::of_shapes(ErrorKind::TensorShape, ws, xs));
    }
    let (wb, xb) = (w.buf(), x.buf());
    proof {
        lemma_len_fits(wb);
        lemma_len_fits(xb);
        lemma_rank3(w.spec_shape(), w.spec_strides());
    }
    if xs.len() == 3 {
        let out_shape = vec![ws[0], ws[1], xs[2]];
        proof {
            lemma_rank3(x.spec_shape(), x.spec_strides());
            lemma_rank3(out_shape@, out_shape@);
        }
        product_into(wb, xb, w.strider(), x.strider(), out_shape, zero, &step, ws, xs)
    } else {
        let xt = x.strides();
        proof {
            lemma_rank2(x.spec_shape(), x.spec_strides());
            assert(xs@[0] * (xs@[1] * 1) == xs@[0] * xs@[1]) by (nonlinear_arith);
        }
        let x3 = lift3(xs[0], xs[1], 1, xt[0], xt[1], 1);
        let out_shape = vec![ws[0], ws[1]];
        proof {
            lemma_rank3(x3.spec_shape(), x3.spec_strides());
            lemma_rank2(out_shape@, out_shape@);
            assert(ws@[0] * (ws@[1] * 1) == ws@[0] * ws@[1]) by (nonlinear_arith);
        }
        product_into(wb, xb, w.strider(), &x3, out_shape, zero, &step, ws, xs)
    }
}


/// Number of columns of the right operand of a matrix product: the extent
/// of its second axis, or one where it is a vector.
pub open spec fn matmul_cols<T: Copy>(x: &CpuTensor<'_, T>) -> int {
    if x.spec_shape().len() == 2 {
        x.spec_shape()[1] as int
    } else {
        1
    }
}

/// The operands a matrix product accepts: a densely packed `w` of shape
/// `(r, c)`, `x` of shape `(c)` or `(c, n)`, and an output whose element
/// count is a machine integer.
pub open spec fn matmul_2d_accepts<T: Copy>(w: &CpuTensor<'_, T>, x: &CpuTensor<'_, T>) -> bool {
    &&& w.spec_shape().len() == 2
    &&& (x.spec_shape().len() == 1 || x.spec_shape().len() == 2)
    &&& w.spec_shape()[1] == x.spec_shape()[0]
    &&& w.spec_is_contiguous()
    &&& w.spec_shape()[0] * matmul_cols(x) <= usize::MAX
}

/// Shape of a matrix product: `(r)` or `(r, n)`.
pub open spec fn matmul_2d_shape<T: Copy>(w: &CpuTensor<'_, T>, x: &CpuTensor<'_, T>) -> Seq<usize> {
    if x.spec_shape().len() == 2 {
        seq![w.spec_shape()[0], x.spec_shape()[1]]
    } else {
        seq![w.spec_shape()[0]]
    }
}

/// Where the column of `x` that feeds output element `p` starts.
pub open spec fn matmul_x_start<T: Copy>(x: &CpuTensor<'_, T>, p: int) -> int {
    if x.spec_shape().len() == 2 {
        (p % matmul_cols(x)) * x.spec_strides()[1]
    } else {
        0
    }
}

/// Matrix product `w @ x` for a vector or a matrix `x`.
///
/// Output element `p`, counted in row-major order over `(r, n)`, is
/// accumulated from `zero` over the `c` pairs of row `p / n` of `w` and
/// column `p % n` of `x`, in ascending order.
pub fn tensor_matmul_2d<'a, T: Copy, F: Fn(T, T, T) -> T>(
    w: &CpuTensor<'a, T>,
    x: &CpuTensor<'a, T>,
    zero: T,
    step: F,
) -> (r: Result<CpuTensor<'a, T>>)
    requires
        w.wf(),
        x.wf(),
        total3(step),
    ensures
        r is Ok <==> matmul_2d_accepts(w, x),
        r matches Ok(out) ==> {
            &&& out.wf()
            &&& out.spec_is_contiguous()
            &&& out.spec_is_owned()
            &&& out.spec_shape() == matmul_2d_shape(w, x)
            &&& out@.len() == w.spec_shape()[0] * matmul_cols(x)
            &&& forall|p: int|
                0 <= p < out@.len() ==> mac_fold(
                    step,
                    zero,
                    strided(
                        w@,
                        (p / matmul_cols(x)) * w.spec_strides()[0],
                        w.spec_strides()[1] as int,
                        w.spec_shape()[1] as nat,
                    ),
                    strided(
                        x@,
                        matmul_x_start(x, p),
                        x.spec_strides()[0] as int,
                        w.spec_shape()[1] as nat,
                    ),
                    #[trigger] out@[p],
                )
        },
        r matches Err(e) ==> {
            &&& e.kind == ErrorKind::TensorShape
            &&& e.left@ == w.spec_shape()
            &&& e.right@ == x.spec_shape()
        },
{
    let ws = w.shape();
    let wt = w.strides();
    let xs = x.shape();
    let xt = x.strides();
    if ws.len() != 2 || (xs.len() != 1 && xs.len() != 2) {
        return Err(Error::of_shapes(ErrorKind::TensorShape, ws, xs));
    }
    match require_tensor_matmul_2d_shapes(w, x) {
        Err(e) => {
            return Err(e);
        },
        Ok(_) => {},
    }
    if !w.is_contiguous() {
        return Err(Error::of_shapes(ErrorKind::TensorShape, ws, xs));
    }
    let (wb, xb) = (w.buf(), x.buf());
    proof {
        lemma_len_fits(wb);
        lemma_len_fits(xb);
        lemma_rank2(w.spec_shape(), w.spec_strides());
    }
    if xs.len() == 1 {
        proof {
            lemma_rank1(x.spec_shape(), x.spec_strides());
        }
        if x.is_contiguous() {
            proof {
                assert(ws@[0] * 1 == ws@[0]);
                crate::tensor::strider::lemma_row_major_span(
                    w.spec_shape(),
                    w.spec_strides(),
                    0,
                );
                crate::tensor::strider::lemma_row_major_span(
                    x.spec_shape(),
                    x.spec_strides(),
                    0,
                );
            }
            return tensor_matmul_specialized_2d_1d(w, x, zero, step);
        }
    } else {
        proof {
            lemma_rank2(x.spec_shape(), x.spec_strides());
        }
    }
    let (n, xt1) = if xs.len() == 2 {
        (xs[1], xt[1])
    } else {
        (1, 1)
    };
    let out_shape = if xs.len() == 2 {
        vec![ws[0], xs[1]]
    } else {
        vec![ws[0]]
    };
    proof {
        assert(1 * (ws@[0] * ws@[1]) == ws@[0] * ws@[1]);
        assert(1 * (xs@[0] * n) == xs@[0] * n);
        assert(1 * (ws@[0] * n) == ws@[0] * n);
        assert(xs.len() == 1 ==> xs@[0] * n == xs@[0]);
        if xs.len() == 2 {
            lemma_rank2(out_shape@, out_shape@);
        } else {
            lemma_rank1(out_shape@, out_shape@);
            assert(ws@[0] * 1 == ws@[0]);
        }
    }
    let w3 = lift3(1, ws[0], ws[1], 0, wt[0], wt[1]);
    let x3 = lift3(1, xs[0], n, 0, xt[0], xt1);
    proof {
        lemma_rank3(w3.spec_shape(), w3.spec_strides());
        lemma_rank3(x3.spec_shape(), x3.spec_strides());
    }
    let r = product_into(wb, xb, &w3, &x3, out_shape, zero, &step, ws, xs);
    proof {
        if r is Ok {
            let out = r->Ok_0;
            assert forall|p: int| 0 <= p < out@.len() implies mac_fold(
                step,
                zero,
                strided(
                    w@,
                    (p / matmul_cols(x)) * w.spec_strides()[0],
                    w.spec_strides()[1] as int,
                    w.spec_shape()[1] as nat,
                ),
                strided(
                    x@,
                    matmul_x_start(x, p),
                    x.spec_strides()[0] as int,
                    w.spec_shape()[1] as nat,
                ),
                #[trigger] out@[p],
            ) by {
                let q = p / (n as int);
                assert(0 <= q < ws@[0]) by (nonlinear_arith)
                    requires
                        0 <= p < ws@[0] * n,
                        n > 0,
                        q == p / (n as int),
                ;
                lemma_small(q, ws@[0] as int);
                assert(a_row(w@, w3, x3, p) == strided(
                    w@,
                    q * wt@[0],
                    wt@[1] as int,
                    ws@[1] as nat,
                ));
                if xs.len() == 1 {
                    assert(p % 1 == 0);
                }
                assert(b_col(x@, w3, x3, p) == strided(
                    x@,
                    matmul_x_start(x, p),
                    xt@[0] as int,
                    ws@[1] as nat,
                ));
            }
        }
    }
    r
}

/// Matrix-vector product for a densely packed matrix and a densely packed
/// vector, row by row.
///
/// Row `i` of the output is accumulated from `zero` over the pairs of
/// `w[i * d ..]` and `x[0 ..]` in ascending order, where `d` is the number
/// of elements of `x`. Every row has to lie inside the storage of `w`.
pub fn tensor_matmul_specialized_2d_1d<'a, T: Copy, F: Fn(T, T, T) -> T>(
    w: &CpuTensor<'a, T>,
    x: &CpuTensor<'a, T>,
    zero: T,
    step: F,
) -> (r: Result<CpuTensor<'a, T>>)
    requires
        w.wf(),
        x.wf(),
        total3(step),
        w.spec_shape().len() >= 1,
        w.spec_shape()[0] * x.spec_strider().spec_len() <= w@.len(),
        x.spec_strider().spec_len() <= x@.len(),
    ensures
        r is Ok,
        r matches Ok(out) ==> {
            &&& out.wf()
            &&& out.spec_is_contiguous()
            &&& out.spec_is_owned()
            &&& out.spec_shape() == seq![w.spec_shape()[0]]
            &&& out@.len() == w.spec_shape()[0]
            &&& forall|i: int|
                0 <= i < out@.len() ==> mac_fold(
                    step,
                    zero,
                    strided(
                        w@,
                        i * x.spec_strider().spec_len(),
                        1,
                        x.spec_strider().spec_len(),
                    ),
                    strided(x@, 0, 1, x.spec_strider().spec_len()),
                    #[trigger] out@[i],
                )
        },
{
    let rows = w.shape()[0];
    let wb = w.buf();
    let xb = x.buf();
    let x_dim = x.len();
    let w_len = wb.len();
    let x_len = xb.len();
    let mut out: Vec<T> = Vec::new();
    let mut i: usize = 0;
    while i < rows
        invariant
            total3(step),
            i <= rows,
            rows == w.spec_shape()[0],
            rows > 0,
            x_dim == x.spec_strider().spec_len(),
            wb@ == w@,
            xb@ == x@,
            w_len == wb@.len(),
            x_len == xb@.len(),
            rows * x_dim <= w_len,
            x_dim <= x_len,
            out@.len() == i,
            forall|t: int|
                0 <= t < i ==> mac_fold(
                    step,
                    zero,
                    strided(w@, t * x_dim, 1, x_dim as nat),
                    strided(x@, 0, 1, x_dim as nat),
                    #[trigger] out@[t],
                ),
        decreases rows - i,
    {
        assert(i * x_dim + x_dim <= rows * x_dim && i * x_dim >= 0) by (nonlinear_arith)
            requires
                i + 1 <= rows,
                x_dim >= 0,
                i >= 0,
        ;
        let v = mac_strided(&step, zero, wb, i * x_dim, 1, xb, 0, 1, x_dim);
        out.push(v);
        i = i + 1;
    }
    let shape = vec![rows];
    proof {
        lemma_rank1(shape@, shape@);
        assert(extents_positive(shape@));
    }
    CpuTensor::new(out, shape)
}


/// Whether position `j` of the storage is one of the first `count` stops of
/// a walk from position zero with the given stride.
pub open spec fn on_walk(j: int, stride: int, count: int) -> bool {
    j % stride == 0 && j / stride < count
}

/// What a soft-max over the first `count` elements of a walk leaves behind.
///
/// There are a maximum `mx`, shifted exponentials `es` and a sum `sum` such
/// that: `mx` is a fold of `max_of` over the old elements, from `lowest`;
/// `es[i]` is what `exp_shift` makes of old element `i` and `mx`; `sum` is a
/// fold of `plus` over `es`, from `zero`; new element `i` is what `div` makes
/// of `es[i]` and `sum`. Storage off the walk is as before.
pub open spec fn softmax_post<
    T,
    M: Fn(T, T) -> T,
    E: Fn(T, T) -> T,
    A: Fn(T, T) -> T,
    D: Fn(T, T) -> T,
>(
    max_of: M,
    exp_shift: E,
    plus: A,
    div: D,
    lowest: T,
    zero: T,
    before: Seq<T>,
    after: Seq<T>,
    stride: int,
    count: nat,
) -> bool {
    &&& after.len() == before.len()
    &&& exists|mx: T, es: Seq<T>, sum: T|
        {
            &&& #[trigger] softmax_steps(
                max_of,
                exp_shift,
                plus,
                div,
                lowest,
                zero,
                before,
                after,
                stride,
                count,
                mx,
                es,
                sum,
            )
        }
    &&& forall|j: int|
        0 <= j < before.len() && !on_walk(j, stride, count as int) ==> #[trigger] after[j]
            == before[j]
}

/// The three passes of a soft-max, with their intermediate values named.
pub open spec fn softmax_steps<
    T,
    M: Fn(T, T) -> T,
    E: Fn(T, T) -> T,
    A: Fn(T, T) -> T,
    D: Fn(T, T) -> T,
>(
    max_of: M,
    exp_shift: E,
    plus: A,
    div: D,
    lowest: T,
    zero: T,
    before: Seq<T>,
    after: Seq<T>,
    stride: int,
    count: nat,
    mx: T,
    es: Seq<T>,
    sum: T,
) -> bool {
    &&& es.len() == count
    &&& fold_reaches(max_of, lowest, strided(before, 0, stride, count), mx)
    &&& forall|i: int|
        0 <= i < count ==> call_ensures(exp_shift, (before[i * stride], mx), #[trigger] es[i])
    &&& fold_reaches(plus, zero, es, sum)
    &&& forall|i: int|
        0 <= i < count ==> call_ensures(div, (#[trigger] es[i], sum), after[i * stride])
}

/// The first `count` stops of a walk with a positive stride are distinct
/// positions, and each is on the walk.
proof fn lemma_walk(i: int, stride: int, count: int)
    requires
        0 <= i < count,
        stride >= 1,
    ensures
        on_walk(i * stride, stride, count),
        (i * stride) / stride == i,
        0 <= i * stride,
{
    vstd::arithmetic::div_mod::lemma_fundamental_div_mod_converse(i * stride, stride, i, 0);
    assert(0 <= i * stride) by (nonlinear_arith)
        requires
            0 <= i,
            stride >= 1,
    ;
}

/// Soft-max in place over the first `count` stops of a walk through `buf`.
pub fn softmax_walk<
    T: Copy,
    M: Fn(T, T) -> T,
    E: Fn(T, T) -> T,
    A: Fn(T, T) -> T,
    D: Fn(T, T) -> T,
>(
    buf: &mut [T],
    stride: usize,
    count: usize,
    lowest: T,
    zero: T,
    max_of: &M,
    exp_shift: &E,
    plus: &A,
    div: &D,
)
    requires
        stride >= 1,
        count > 0 ==> (count - 1) * stride < old(buf)@.len(),
        total2(*max_of),
        total2(*exp_shift),
        total2(*plus),
        total2(*div),
    ensures
        softmax_post(
            *max_of,
            *exp_shift,
            *plus,
            *div,
            lowest,
            zero,
            old(buf)@,
            final(buf)@,
            stride as int,
            count as nat,
        ),
{
    let ghost before = buf@;
    let len = buf.len();
    // First pass: the maximum.
    let mut mx = lowest;
    let mut i: usize = 0;
    while i < count
        invariant
            total2(*max_of),
            i <= count,
            stride >= 1,
            len == buf@.len(),
            buf@ == before,
            count > 0 ==> (count - 1) * stride < len,
            fold_reaches(*max_of, lowest, strided(before, 0, stride as int, i as nat), mx),
        decreases count - i,
    {
        proof {
            lemma_strided_in_bounds(0, stride as int, count as int, i as int);
        }
        let x = buf[i * stride];
        let ghost prev = mx;
        mx = max_of(mx, x);
        proof {
            lemma_fold_push(
                *max_of,
                lowest,
                strided(before, 0, stride as int, i as nat),
                prev,
                x,
                mx,
            );
            assert(strided(before, 0, stride as int, i as nat).push(x) =~= strided(
                before,
                0,
                stride as int,
                (i + 1) as nat,
            ));
        }
        i = i + 1;
    }
    // Second pass: shifted exponentials and their sum.
    let mut sum = zero;
    let ghost mut es: Seq<T> = Seq::empty();
    let mut i: usize = 0;
    while i < count
        invariant
            total2(*exp_shift),
            total2(*plus),
            i <= count,
            stride >= 1,
            len == buf@.len(),
            len == before.len(),
            count > 0 ==> (count - 1) * stride < len,
            es.len() == i,
            forall|t: int|
                0 <= t < i ==> call_ensures(*exp_shift, (before[t * stride], mx), #[trigger] es[t]),
            fold_reaches(*plus, zero, es, sum),
            forall|t: int| 0 <= t < i ==> buf@[t * stride] == #[trigger] es[t],
            forall|j: int|
                0 <= j < len && !on_walk(j, stride as int, i as int) ==> #[trigger] buf@[j]
                    == before[j],
        decreases count - i,
    {
        proof {
            lemma_strided_in_bounds(0, stride as int, count as int, i as int);
            lemma_walk(i as int, stride as int, count as int);
        }
        let x = buf[i * stride];
        let e = exp_shift(x, mx);
        let ghost prev = sum;
        let ghost old_buf = buf@;
        sum = plus(sum, e);
        buf[i * stride] = e;
        proof {
            lemma_fold_push(*plus, zero, es, prev, e, sum);
            let es1 = es.push(e);
            assert forall|t: int| 0 <= t < i + 1 implies buf@[t * stride] == #[trigger] es1[t] by {
                lemma_walk(t, stride as int, count as int);
                lemma_strided_in_bounds(0, stride as int, count as int, t);
                if t < i {
                    assert(old_buf[t * stride] == es[t]);
                }
            }
            assert forall|t: int| 0 <= t < i + 1 implies call_ensures(
                *exp_shift,
                (before[t * stride], mx),
                #[trigger] es1[t],
            ) by {
                if t < i {
                    assert(call_ensures(*exp_shift, (before[t * stride], mx), es[t]));
                }
            }
            es = es1;
        }
        i = i + 1;
    }
    // Third pass: divide by the sum.
    let mut i: usize = 0;
    while i < count
        invariant
            total2(*div),
            i <= count,
            stride >= 1,
            len == buf@.len(),
            len == before.len(),
            count > 0 ==> (count - 1) * stride < len,
            es.len() == count,
            forall|t: int| 0 <= t < i ==> call_ensures(*div, (#[trigger] es[t], sum), buf@[t * stride]),
            forall|t: int| i <= t < count ==> buf@[t * stride] == #[trigger] es[t],
            forall|j: int|
                0 <= j < len && !on_walk(j, stride as int, count as int) ==> #[trigger] buf@[j]
                    == before[j],
        decreases count - i,
    {
        proof {
            lemma_strided_in_bounds(0, stride as int, count as int, i as int);
            lemma_walk(i as int, stride as int, count as int);
        }
        let e = buf[i * stride];
        let v = div(e, sum);
        let ghost old_buf = buf@;
        buf[i * stride] = v;
        proof {
            assert forall|t: int| 0 <= t < i + 1 implies call_ensures(
                *div,
                (#[trigger] es[t], sum),
                buf@[t * stride],
            ) by {
                lemma_walk(t, stride as int, count as int);
                lemma_strided_in_bounds(0, stride as int, count as int, t);
                if t < i {
                    assert(call_ensures(*div, (es[t], sum), old_buf[t * stride]));
                }
            }
            assert forall|t: int| i + 1 <= t < count implies buf@[t * stride] == #[trigger] es[t] by {
                lemma_walk(t, stride as int, count as int);
                lemma_strided_in_bounds(0, stride as int, count as int, t);
                assert(old_buf[t * stride] == es[t]);
            }
        }
        i = i + 1;
    }
    proof {
        assert(softmax_steps(
            *max_of,
            *exp_shift,
            *plus,
            *div,
            lowest,
            zero,
            before,
            buf@,
            stride as int,
            count as nat,
            mx,
            es,
            sum,
        ));
    }
}

/// Soft-max in place over the first `limit` elements of a one-axis tensor.
///
/// Elements past `limit` are left untouched. A tensor that does not own its
/// storage, has more than one axis, or whose elements share storage, is
/// rejected and left as it was.
pub fn tensor_softmax_inplace<
    'a,
    T: Copy,
    M: Fn(T, T) -> T,
    E: Fn(T, T) -> T,
    A: Fn(T, T) -> T,
    D: Fn(T, T) -> T,
>(
    t: &mut CpuTensor<'a, T>,
    limit: usize,
    lowest: T,
    zero: T,
    max_of: M,
    exp_shift: E,
    plus: A,
    div: D,
) -> (r: Result<()>)
    requires
        old(t).wf(),
        total2(max_of),
        total2(exp_shift),
        total2(plus),
        total2(div),
    ensures
        final(t).wf(),
        final(t).spec_is_owned() == old(t).spec_is_owned(),
        final(t).spec_strider() == old(t).spec_strider(),
        r is Ok <==> old(t).spec_is_owned() && old(t).spec_shape().len() == 1 && (old(
            t,
        ).spec_shape()[0] == 1 || old(t).spec_strides()[0] >= 1),
        r is Ok ==> softmax_post(
            max_of,
            exp_shift,
            plus,
            div,
            lowest,
            zero,
            old(t)@,
            final(t)@,
            softmax_stride(old(t)),
            softmax_count(old(t), limit),
        ),
        r matches Err(e) ==> {
            &&& e.kind == ErrorKind::TensorShape
            &&& e.left@ == old(t).spec_shape()
            &&& e.right@.len() == 0
            &&& final(t)@ == old(t)@
        },
{
    if !t.is_owned() || t.shape().len() != 1 {
        return Err(misfit(t));
    }
    let extent = t.shape()[0];
    let stride = if extent == 1 {
        1
    } else {
        t.strides()[0]
    };
    if stride == 0 {
        return Err(misfit(t));
    }
    let count = if limit < extent {
        limit
    } else {
        extent
    };
    proof {
        lemma_rank1(t.spec_shape(), t.spec_strides());
    }
    let len = t.buf().len();
    assert(count > 0 ==> (count - 1) * stride < len) by {
        if count > 0 {
            lemma_strided_in_bounds(0, stride as int, extent as int, count - 1);
            if extent == 1 {
            } else {
                lemma_strided_in_bounds(0, stride as int, extent as int, extent - 1);
            }
        }
    }
    softmax_walk(t.buf_mut(), stride, count, lowest, zero, &max_of, &exp_shift, &plus, &div);
    Ok(())
}

/// Distance between neighbouring elements of a one-axis tensor; one where
/// it has a single element.
pub open spec fn softmax_stride<T: Copy>(t: &CpuTensor<'_, T>) -> int {
    if t.spec_shape()[0] == 1 {
        1
    } else {
        t.spec_strides()[0] as int
    }
}

/// Number of elements a soft-max with the given limit works on.
pub open spec fn softmax_count<T: Copy>(t: &CpuTensor<'_, T>, limit: usize) -> nat {
    if limit < t.spec_shape()[0] {
        limit as nat
    } else {
        t.spec_shape()[0] as nat
    }
}


/// Element-wise `a[i] = plus(a[i], b[i])` on two densely packed tensors of
/// the same shape.
///
/// `a` has to own its storage. Storage of `a` past its last element is left
/// alone.
pub fn tensor_add_inplace<'a, T: Copy, F: Fn(T, T) -> T>(
    a: CpuTensor<'a, T>,
    b: &CpuTensor<'a, T>,
    plus: F,
) -> (r: Result<CpuTensor<'a, T>>)
    requires
        a.wf(),
        b.wf(),
        total2(plus),
    ensures
        r is Ok <==> a.spec_is_owned() && a.spec_shape() == b.spec_shape()
            && a.spec_is_contiguous() && b.spec_is_contiguous(),
        r matches Ok(out) ==> {
            &&& out.wf()
            &&& out.spec_is_owned()
            &&& out.spec_strider() == a.spec_strider()
            &&& out@.len() == a@.len()
            &&& forall|i: int|
                0 <= i < a.spec_strider().spec_len() ==> call_ensures(
                    plus,
                    (a@[i], b@[i]),
                    #[trigger] out@[i],
                )
            &&& forall|i: int|
                a.spec_strider().spec_len() <= i < a@.len() ==> #[trigger] out@[i] == a@[i]
        },
        r matches Err(e) ==> {
            &&& e.kind == ErrorKind::TensorShape
            &&& e.left@ == a.spec_shape()
            &&& e.right@ == b.spec_shape()
        },
{
    match require_tensor_shape(&a, b.shape()) {
        Err(_) => {
            return Err(misfit_pair(&a, b));
        },
        Ok(_) => {},
    }
    match require_tensor_contiguous(&a) {
        Err(_) => {
            return Err(misfit_pair(&a, b));
        },
        Ok(_) => {},
    }
    match require_tensor_contiguous(b) {
        Err(_) => {
            return Err(misfit_pair(&a, b));
        },
        Ok(_) => {},
    }
    match require_tensor_owned(&a) {
        Err(_) => {
            return Err(misfit_pair(&a, b));
        },
        Ok(_) => {},
    }
    let n = a.len();
    let bb = b.buf();
    let b_len = bb.len();
    proof {
        lemma_row_major_span(a.spec_shape(), a.spec_strides(), 0);
        lemma_row_major_span(b.spec_shape(), b.spec_strides(), 0);
        assert(n <= a@.len());
        assert(n <= b_len);
    }
    let mut a = a;
    let ghost before = a@;
    let buf = a.buf_mut();
    let mut i: usize = 0;
    while i < n
        invariant
            total2(plus),
            i <= n,
            n <= b_len,
            b_len == bb@.len(),
            n <= buf@.len(),
            buf@.len() == before.len(),
            forall|t: int| 0 <= t < i ==> call_ensures(plus, (before[t], bb@[t]), #[trigger] buf@[t]),
            forall|t: int| i <= t < buf@.len() ==> #[trigger] buf@[t] == before[t],
        decreases n - i,
    {
        let v = plus(buf[i], bb[i]);
        buf[i] = v;
        i = i + 1;
    }
    Ok(a)
}

/// Element-wise `x[i] = silu(x[i])` on a densely packed tensor.
///
/// `x` has to own its storage. Storage past its last element is left alone.
pub fn tensor_silu_inplace<'a, T: Copy, F: Fn(T) -> T>(x: CpuTensor<'a, T>, silu: F) -> (r: Result<
    CpuTensor<'a, T>,
>)
    requires
        x.wf(),
        forall|v: T| call_requires(silu, (v,)),
    ensures
        r is Ok <==> x.spec_is_owned() && x.spec_is_contiguous(),
        r matches Ok(out) ==> {
            &&& out.wf()
            &&& out.spec_is_owned()
            &&& out.spec_strider() == x.spec_strider()
            &&& out@.len() == x@.len()
            &&& forall|i: int|
                0 <= i < x.spec_strider().spec_len() ==> call_ensures(
                    silu,
                    (x@[i],),
                    #[trigger] out@[i],
                )
            &&& forall|i: int|
                x.spec_strider().spec_len() <= i < x@.len() ==> #[trigger] out@[i] == x@[i]
        },
        r matches Err(e) ==> {
            &&& e.kind == ErrorKind::TensorShape
            &&& e.left@ == x.spec_shape()
            &&& e.right@.len() == 0
        },
{
    match require_tensor_owned(&x) {
        Err(_) => {
            return Err(misfit(&x));
        },
        Ok(_) => {},
    }
    match require_tensor_contiguous(&x) {
        Err(_) => {
            return Err(misfit(&x));
        },
        Ok(_) => {},
    }
    let n = x.len();
    proof {
        lemma_row_major_span(x.spec_shape(), x.spec_strides(), 0);
        assert(n <= x@.len());
    }
    let mut x = x;
    let ghost before = x@;
    let buf = x.buf_mut();
    let mut i: usize = 0;
    while i < n
        invariant
            forall|v: T| call_requires(silu, (v,)),
            i <= n,
            n <= buf@.len(),
            buf@.len() == before.len(),
            forall|t: int| 0 <= t < i ==> call_ensures(silu, (before[t],), #[trigger] buf@[t]),
            forall|t: int| i <= t < buf@.len() ==> #[trigger] buf@[t] == before[t],
        decreases n - i,
    {
        let v = silu(buf[i]);
        buf[i] = v;
        i = i + 1;
    }
    Ok(x)
}

/// Root-mean-square normalisation in place of a densely packed vector.
///
/// There are a sum `s` and a divisor `rms` such that `s` is a fold of
/// `sq_add` over the elements, from `zero`; `rms` is what `finish` makes of
/// `s`, the number of elements and `eps`; and every new element is what
/// `div` makes of the old one and `rms`.
pub fn tensor_rms_norm_inplace<
    'a,
    T: Copy,
    S: Fn(T, T) -> T,
    R: Fn(T, usize, T) -> T,
    D: Fn(T, T) -> T,
>(x: CpuTensor<'a, T>, eps: T, zero: T, sq_add: S, finish: R, div: D) -> (r: Result<
    CpuTensor<'a, T>,
>)
    requires
        x.wf(),
        total2(sq_add),
        total3(finish),
        total2(div),
    ensures
        r is Ok <==> x.spec_is_owned() && x.spec_is_contiguous() && x.spec_shape().len() == 1,
        r matches Ok(out) ==> {
            &&& out.wf()
            &&& out.spec_is_owned()
            &&& out.spec_strider() == x.spec_strider()
            &&& out@.len() == x@.len()
            &&& exists|s: T, rms: T|
                {
                    &&& fold_reaches(sq_add, zero, x@.take(x.spec_shape()[0] as int), s)
                    &&& #[trigger] call_ensures(finish, (s, x.spec_shape()[0], eps), rms)
                    &&& forall|i: int|
                        0 <= i < x.spec_shape()[0] ==> call_ensures(
                            div,
                            (x@[i], rms),
                            #[trigger] out@[i],
                        )
                }
            &&& forall|i: int| x.spec_shape()[0] <= i < x@.len() ==> #[trigger] out@[i] == x@[i]
        },
        r matches Err(e) ==> {
            &&& e.kind == ErrorKind::TensorShape
            &&& e.left@ == x.spec_shape()
            &&& e.right@.len() == 0
        },
{
    match require_tensor_contiguous(&x) {
        Err(_) => {
            return Err(misfit(&x));
        },
        Ok(_) => {},
    }
    if x.shape().len() != 1 {
        return Err(misfit(&x));
    }
    match require_tensor_owned(&x) {
        Err(_) => {
            return Err(misfit(&x));
        },
        Ok(_) => {},
    }
    let len = x.shape()[0];
    proof {
        lemma_rank1(x.spec_shape(), x.spec_strides());
        assert(x.spec_strides()[0] == 1);
        assert(x.spec_strider().spec_span() == len - 1);
        assert(len <= x@.len());
    }
    let mut x = x;
    let ghost before = x@;
    let buf = x.buf_mut();
    let mut sum = zero;
    let mut i: usize = 0;
    while i < len
        invariant
            total2(sq_add),
            i <= len,
            len <= buf@.len(),
            buf@ == before,
            fold_reaches(sq_add, zero, before.take(i as int), sum),
        decreases len - i,
    {
        let ghost prev = sum;
        sum = sq_add(sum, buf[i]);
        proof {
            lemma_fold_push(sq_add, zero, before.take(i as int), prev, before[i as int], sum);
            assert(before.take(i as int).push(before[i as int]) =~= before.take(i + 1));
        }
        i = i + 1;
    }
    let rms = finish(sum, len, eps);
    let mut i: usize = 0;
    while i < len
        invariant
            total2(div),
            i <= len,
            len <= buf@.len(),
            buf@.len() == before.len(),
            forall|t: int| 0 <= t < i ==> call_ensures(div, (before[t], rms), #[trigger] buf@[t]),
            forall|t: int| i <= t < buf@.len() ==> #[trigger] buf@[t] == before[t],
        decreases len - i,
    {
        let v = div(buf[i], rms);
        buf[i] = v;
        i = i + 1;
    }
    Ok(x)
}


/// The pair at positions `i`, `i + 1` of `after` is what `rotate` makes of
/// the pair at the same positions of `before`, for coordinate `i mod
/// head_size` of a head at sequence position `pos`.
pub open spec fn pair_rotated<T, F: Fn(T, T, usize, usize, usize) -> (T, T)>(
    rotate: F,
    before: Seq<T>,
    after: Seq<T>,
    i: int,
    head_size: usize,
    pos: usize,
) -> bool {
    call_ensures(
        rotate,
        (before[i], before[i + 1], (i % (head_size as int)) as usize, head_size, pos),
        (after[i], after[i + 1]),
    )
}

/// Every pair below `n` of `after` is the rotated pair of `before`, and
/// everything from `n` on is as before.
pub open spec fn rotated_below<T, F: Fn(T, T, usize, usize, usize) -> (T, T)>(
    rotate: F,
    before: Seq<T>,
    after: Seq<T>,
    n: int,
    head_size: usize,
    pos: usize,
) -> bool {
    &&& after.len() == before.len()
    &&& forall|i: int|
        0 <= i < n && i % 2 == 0 ==> #[trigger] pair_rotated(
            rotate,
            before,
            after,
            i,
            head_size,
            pos,
        )
    &&& forall|i: int| n <= i < before.len() ==> #[trigger] after[i] == before[i]
}

/// Rotates the leading `n` elements of `buf` pair by pair.
fn rotate_pairs<T: Copy, F: Fn(T, T, usize, usize, usize) -> (T, T)>(
    buf: &mut [T],
    n: usize,
    head_size: usize,
    pos: usize,
    rotate: &F,
)
    requires
        n % 2 == 0,
        n <= old(buf)@.len(),
        head_size > 0,
        forall|a: T, b: T, d: usize, h: usize, p: usize| call_requires(*rotate, (a, b, d, h, p)),
    ensures
        rotated_below(*rotate, old(buf)@, final(buf)@, n as int, head_size, pos),
{
    let mut i: usize = 0;
    while i < n
        invariant
            n % 2 == 0,
            i % 2 == 0,
            i <= n <= buf@.len(),
            head_size > 0,
            forall|a: T, b: T, d: usize, h: usize, p: usize|
                call_requires(*rotate, (a, b, d, h, p)),
            buf@.len() == old(buf)@.len(),
            forall|t: int|
                0 <= t < i && t % 2 == 0 ==> #[trigger] pair_rotated(
                    *rotate,
                    old(buf)@,
                    buf@,
                    t,
                    head_size,
                    pos,
                ),
            forall|t: int| i <= t < buf@.len() ==> #[trigger] buf@[t] == old(buf)@[t],
        decreases n - i,
    {
        let head_dim = i % head_size;
        let v0 = buf[i];
        let v1 = buf[i + 1];
        let (r0, r1) = rotate(v0, v1, head_dim, head_size, pos);
        let ghost prev = buf@;
        buf[i] = r0;
        buf[i + 1] = r1;
        proof {
            assert forall|t: int| 0 <= t < i + 2 && t % 2 == 0 implies #[trigger] pair_rotated(
                *rotate,
                old(buf)@,
                buf@,
                t,
                head_size,
                pos,
            ) by {
                if t < i {
                    assert(pair_rotated(*rotate, old(buf)@, prev, t, head_size, pos));
                    assert(t + 1 < i);
                }
            }
        }
        i = i + 2;
    }
}

/// Rotary position embedding in place on queries and keys.
///
/// Both tensors own their storage and are densely packed with two axes;
/// the second extent of `q` is the head size. Every pair `(i, i + 1)` for
/// even `i` is rotated, in the queries and in the keys alike, however many
/// heads each has. A tensor with an odd number of elements is rejected.
pub fn tensor_rope_inplace<'a, T: Copy, F: Fn(T, T, usize, usize, usize) -> (T, T)>(
    q: CpuTensor<'a, T>,
    k: CpuTensor<'a, T>,
    pos: usize,
    rotate: F,
) -> (r: Result<(CpuTensor<'a, T>, CpuTensor<'a, T>)>)
    requires
        q.wf(),
        k.wf(),
        forall|a: T, b: T, d: usize, h: usize, p: usize| call_requires(rotate, (a, b, d, h, p)),
    ensures
        r is Ok <==> rope_accepts(&q, &k),
        r matches Ok(qk) ==> {
            &&& qk.0.wf() && qk.1.wf()
            &&& qk.0.spec_is_owned() && qk.1.spec_is_owned()
            &&& qk.0.spec_strider() == q.spec_strider()
            &&& qk.1.spec_strider() == k.spec_strider()
            &&& rotated_below(
                rotate,
                q@,
                qk.0@,
                q.spec_strider().spec_len() as int,
                q.spec_shape()[1],
                pos,
            )
            &&& rotated_below(
                rotate,
                k@,
                qk.1@,
                k.spec_strider().spec_len() as int,
                q.spec_shape()[1],
                pos,
            )
        },
        r matches Err(e) ==> {
            &&& e.kind == ErrorKind::TensorShape
            &&& e.left@ == q.spec_shape()
            &&& e.right@ == k.spec_shape()
        },
{
    match require_tensor_contiguous(&q) {
        Err(_) => {
            return Err(misfit_pair(&q, &k));
        },
        Ok(_) => {},
    }
    match require_tensor_contiguous(&k) {
        Err(_) => {
            return Err(misfit_pair(&q, &k));
        },
        Ok(_) => {},
    }
    if q.shape().len() != 2 || k.shape().len() != 2 {
        return Err(misfit_pair(&q, &k));
    }
    if !q.is_owned() || !k.is_owned() {
        return Err(misfit_pair(&q, &k));
    }
    let kv_dim = k.len();
    let q_dim = q.len();
    if kv_dim % 2 != 0 || q_dim % 2 != 0 {
        return Err(misfit_pair(&q, &k));
    }
    let head_size = q.shape()[1];
    proof {
        lemma_row_major_span(q.spec_shape(), q.spec_strides(), 0);
        lemma_row_major_span(k.spec_shape(), k.spec_strides(), 0);
        assert(q_dim <= q@.len());
        assert(kv_dim <= k@.len());
    }
    let mut q = q;
    let mut k = k;
    rotate_pairs(q.buf_mut(), q_dim, head_size, pos, &rotate);
    rotate_pairs(k.buf_mut(), kv_dim, head_size, pos, &rotate);
    Ok((q, k))
}

/// The operands a rotary embedding accepts: both own their storage, are
/// densely packed with two axes, and hold an even number of elements.
pub open spec fn rope_accepts<T: Copy>(q: &CpuTensor<'_, T>, k: &CpuTensor<'_, T>) -> bool {
    &&& q.spec_is_owned() && k.spec_is_owned()
    &&& q.spec_is_contiguous() && k.spec_is_contiguous()
    &&& q.spec_shape().len() == 2 && k.spec_shape().len() == 2
    &&& q.spec_strider().spec_len() % 2 == 0
    &&& k.spec_strider().spec_len() % 2 == 0
}


/// The shapes the error of a rejected attention names: those of the key
/// and value caches where these two alone disagree, those of the queries
/// and the key cache otherwise.
pub open spec fn attention_error_shapes<T: Copy>(
    q: &CpuTensor<'_, T>,
    k_cache: &CpuTensor<'_, T>,
    v_cache: &CpuTensor<'_, T>,
) -> (Seq<usize>, Seq<usize>) {
    if q.spec_is_contiguous() && k_cache.spec_is_contiguous() && q.spec_shape().len() == 2
        && k_cache.spec_shape().len() == 3 && v_cache.spec_shape() != k_cache.spec_shape() {
        (k_cache.spec_shape(), v_cache.spec_shape())
    } else {
        (q.spec_shape(), k_cache.spec_shape())
    }
}

/// The key-value head a query head reads: groups of `n_heads / n_kv_heads`
/// consecutive query heads share one.
pub open spec fn kv_head_of(h: int, n_heads: int, n_kv_heads: int) -> int {
    h / (n_heads / n_kv_heads)
}

/// Number of cached positions an attention at position `pos` looks at: the
/// positions up to and including `pos`, as far as the cache reaches.
pub open spec fn attended_steps(pos: usize, n_seq: usize) -> nat {
    if pos < n_seq {
        (pos + 1) as nat
    } else {
        n_seq as nat
    }
}

/// The operands a multi-query attention accepts: densely packed queries
/// `(n_heads, head_size)`, a densely packed key cache `(n_seq, n_kv_heads,
/// head_size)`, a value cache of the same shape, and a number of query
/// heads that is a multiple of the number of key-value heads.
pub open spec fn attention_accepts<T: Copy>(
    q: &CpuTensor<'_, T>,
    k_cache: &CpuTensor<'_, T>,
    v_cache: &CpuTensor<'_, T>,
) -> bool {
    &&& q.spec_is_contiguous()
    &&& k_cache.spec_is_contiguous()
    &&& q.spec_shape().len() == 2
    &&& k_cache.spec_shape().len() == 3
    &&& v_cache.spec_shape() == k_cache.spec_shape()
    &&& k_cache.spec_shape()[2] == q.spec_shape()[1]
    &&& q.spec_shape()[0] % k_cache.spec_shape()[1] == 0
}

/// `s` is what `scale` makes of the head size and a dot product of query
/// head `h` with cached key `t` of its key-value head.
pub open spec fn score_of<T: Copy, F: Fn(T, T, T) -> T, S: Fn(T, usize) -> T>(
    step: F,
    scale: S,
    zero: T,
    q: &CpuTensor<'_, T>,
    k_cache: &CpuTensor<'_, T>,
    h: int,
    t: int,
    s: T,
) -> bool {
    let head_size = q.spec_shape()[1];
    let n_kv = k_cache.spec_shape()[1] as int;
    let kvh = kv_head_of(h, q.spec_shape()[0] as int, n_kv);
    exists|d: T|
        mac_fold(
            step,
            zero,
            strided(q@, h * head_size, 1, head_size as nat),
            strided(k_cache@, (t * n_kv + kvh) * head_size, 1, head_size as nat),
            d,
        ) && #[trigger] call_ensures(scale, (d, head_size), s)
}

/// The scaled scores of query head `h` against the first `scores.len()`
/// cached keys of its key-value head.
pub open spec fn head_scored<T: Copy, F: Fn(T, T, T) -> T, S: Fn(T, usize) -> T>(
    step: F,
    scale: S,
    zero: T,
    q: &CpuTensor<'_, T>,
    k_cache: &CpuTensor<'_, T>,
    h: int,
    scores: Seq<T>,
) -> bool {
    forall|t: int|
        0 <= t < scores.len() ==> score_of(step, scale, zero, q, k_cache, h, t, #[trigger] scores[t])
}

/// Row `h` of `out` is the sum of the cached values of its key-value head,
/// each weighted by its probability: element `j` is accumulated from `zero`
/// over the pairs of value `(t, kvh, j)` and probability `t`, in ascending
/// order of `t`.
pub open spec fn head_mixed<T: Copy, F: Fn(T, T, T) -> T>(
    step: F,
    zero: T,
    q: &CpuTensor<'_, T>,
    v_cache: &CpuTensor<'_, T>,
    h: int,
    probs: Seq<T>,
    out: Seq<T>,
) -> bool {
    let head_size = q.spec_shape()[1] as int;
    let kvh = kv_head_of(h, q.spec_shape()[0] as int, v_cache.spec_shape()[1] as int);
    forall|j: int|
        0 <= j < head_size ==> mac_fold(
            step,
            zero,
            strided(
                v_cache@,
                kvh * v_cache.spec_strides()[1] + j * v_cache.spec_strides()[2],
                v_cache.spec_strides()[0] as int,
                probs.len(),
            ),
            probs,
            #[trigger] out[h * head_size + j],
        )
}

/// Head `h` of `out` attends to the first `steps` cached positions: there
/// are scores and probabilities such that the scores are the scaled dot
/// products of the query head with the cached keys, the probabilities are
/// their soft-max, and the output row mixes the cached values by the
/// probabilities.
pub open spec fn head_attended<
    T: Copy,
    F: Fn(T, T, T) -> T,
    S: Fn(T, usize) -> T,
    M: Fn(T, T) -> T,
    E: Fn(T, T) -> T,
    A: Fn(T, T) -> T,
    D: Fn(T, T) -> T,
>(
    step: F,
    scale: S,
    max_of: M,
    exp_shift: E,
    plus: A,
    div: D,
    zero: T,
    lowest: T,
    q: &CpuTensor<'_, T>,
    k_cache: &CpuTensor<'_, T>,
    v_cache: &CpuTensor<'_, T>,
    h: int,
    steps: nat,
    out: Seq<T>,
) -> bool {
    exists|scores: Seq<T>, probs: Seq<T>|
        {
            &&& scores.len() == steps
            &&& head_scored(step, scale, zero, q, k_cache, h, scores)
            &&& #[trigger] softmax_post(
                max_of,
                exp_shift,
                plus,
                div,
                lowest,
                zero,
                scores,
                probs,
                1,
                steps,
            )
            &&& head_mixed(step, zero, q, v_cache, h, probs, out)
        }
}

/// Multi-query attention of the queries `q` over the cached keys and values
/// up to position `pos`.
///
/// The output has the shape of `q`. Every query head attends, through the
/// key-value head of its group, to the cached positions `0 ..= pos` (as far
/// as the cache reaches).
pub fn tensor_multi_query_attention<
    'a,
    T: Copy,
    F: Fn(T, T, T) -> T,
    S: Fn(T, usize) -> T,
    M: Fn(T, T) -> T,
    E: Fn(T, T) -> T,
    A: Fn(T, T) -> T,
    D: Fn(T, T) -> T,
>(
    q: &CpuTensor<'a, T>,
    k_cache: &CpuTensor<'a, T>,
    v_cache: &CpuTensor<'a, T>,
    pos: usize,
    zero: T,
    lowest: T,
    step: &F,
    scale: &S,
    max_of: &M,
    exp_shift: &E,
    plus: &A,
    div: &D,
) -> (r: Result<CpuTensor<'a, T>>)
    requires
        q.wf(),
        k_cache.wf(),
        v_cache.wf(),
        total3(*step),
        total2(*scale),
        total2(*max_of),
        total2(*exp_shift),
        total2(*plus),
        total2(*div),
    ensures
        r is Ok <==> attention_accepts(q, k_cache, v_cache),
        r matches Ok(out) ==> {
            &&& out.wf()
            &&& out.spec_is_contiguous()
            &&& out.spec_is_owned()
            &&& out.spec_shape() == q.spec_shape()
            &&& out@.len() == q.spec_shape()[0] * q.spec_shape()[1]
            &&& forall|h: int|
                0 <= h < q.spec_shape()[0] ==> #[trigger] head_attended(
                    *step,
                    *scale,
                    *max_of,
                    *exp_shift,
                    *plus,
                    *div,
                    zero,
                    lowest,
                    q,
                    k_cache,
                    v_cache,
                    h,
                    attended_steps(pos, k_cache.spec_shape()[0]),
                    out@,
                )
        },
        r matches Err(e) ==> {
            &&& e.kind == ErrorKind::TensorShape
            &&& e.left@ == attention_error_shapes(q, k_cache, v_cache).0
            &&& e.right@ == attention_error_shapes(q, k_cache, v_cache).1
        },
{
    match require_tensor_contiguous(q) {
        Err(_) => {
            return Err(misfit_pair(q, k_cache));
        },
        Ok(_) => {},
    }
    match require_tensor_contiguous(k_cache) {
        Err(_) => {
            return Err(misfit_pair(q, k_cache));
        },
        Ok(_) => {},
    }
    if q.shape().len() != 2 || k_cache.shape().len() != 3 {
        return Err(misfit_pair(q, k_cache));
    }
    match require_tensor_shape(v_cache, k_cache.shape()) {
        Err(_) => {
            return Err(misfit_pair(k_cache, v_cache));
        },
        Ok(_) => {},
    }
    let n_heads = q.shape()[0];
    let head_size = q.shape()[1];
    let n_seq = k_cache.shape()[0];
    let n_kv_heads = k_cache.shape()[1];
    if k_cache.shape()[2] != head_size || n_heads % n_kv_heads != 0 {
        return Err(misfit_pair(q, k_cache));
    }
    let vt = v_cache.strides();
    let (vs0, vs1, vs2) = (vt[0], vt[1], vt[2]);
    let qb = q.buf();
    let kb = k_cache.buf();
    let vb = v_cache.buf();
    let q_len = qb.len();
    let k_len = kb.len();
    let v_len = vb.len();
    let steps = if pos < n_seq {
        pos + 1
    } else {
        n_seq
    };
    proof {
        lemma_rank2(q.spec_shape(), q.spec_strides());
        lemma_rank3(k_cache.spec_shape(), k_cache.spec_strides());
        lemma_rank3(v_cache.spec_shape(), v_cache.spec_strides());
        lemma_row_major_span(q.spec_shape(), q.spec_strides(), 0);
        lemma_row_major_span(k_cache.spec_shape(), k_cache.spec_strides(), 0);
        lemma_group(n_heads as int, n_kv_heads as int);
    }
    let group = n_heads / n_kv_heads;
    let mut out: Vec<T> = Vec::new();
    let mut h: usize = 0;
    while h < n_heads
        invariant
            total3(*step),
            total2(*scale),
            total2(*max_of),
            total2(*exp_shift),
            total2(*plus),
            total2(*div),
            attention_accepts(q, k_cache, v_cache),
            q.wf() && k_cache.wf() && v_cache.wf(),
            qb@ == q@ && kb@ == k_cache@ && vb@ == v_cache@,
            q_len == qb@.len() && k_len == kb@.len() && v_len == vb@.len(),
            n_heads == q.spec_shape()[0],
            head_size == q.spec_shape()[1],
            n_seq == k_cache.spec_shape()[0],
            n_kv_heads == k_cache.spec_shape()[1],
            vs0 == v_cache.spec_strides()[0],
            vs1 == v_cache.spec_strides()[1],
            vs2 == v_cache.spec_strides()[2],
            n_heads * head_size <= q_len,
            n_seq * (n_kv_heads * head_size) <= k_len,
            (n_seq - 1) * vs0 + (n_kv_heads - 1) * vs1 + (head_size - 1) * vs2 < v_len,
            group == n_heads / n_kv_heads,
            group >= 1,
            n_kv_heads >= 1,
            n_seq >= 1,
            head_size >= 1,
            group * n_kv_heads == n_heads,
            steps == attended_steps(pos, n_seq),
            steps <= n_seq,
            h <= n_heads,
            out@.len() == h * head_size,
            forall|g: int|
                0 <= g < h ==> #[trigger] head_attended(
                    *step,
                    *scale,
                    *max_of,
                    *exp_shift,
                    *plus,
                    *div,
                    zero,
                    lowest,
                    q,
                    k_cache,
                    v_cache,
                    g,
                    steps as nat,
                    out@,
                ),
        decreases n_heads - h,
    {
        let kvh = h / group;
        proof {
            lemma_kv_head_inside(h as int, group as int, n_kv_heads as int);
            assert(h * head_size + head_size <= n_heads * head_size && 0 <= h * head_size)
                by (nonlinear_arith)
                requires
                    0 <= h,
                    h + 1 <= n_heads,
                    head_size >= 0,
            ;
        }
        // Scores of this head against the cached keys.
        let mut attn: Vec<T> = Vec::new();
        let mut t: usize = 0;
        while t < steps
            invariant
                total3(*step),
                total2(*scale),
                qb@ == q@ && kb@ == k_cache@,
                q_len == qb@.len() && k_len == kb@.len(),
                n_heads == q.spec_shape()[0],
                head_size == q.spec_shape()[1],
                n_kv_heads == k_cache.spec_shape()[1],
                group == n_heads / n_kv_heads,
                kvh == kv_head_of(h as int, n_heads as int, n_kv_heads as int),
                kvh < n_kv_heads,
                head_size >= 1,
                q.spec_shape().len() == 2,
                k_cache.spec_shape().len() == 3,
                h * head_size + head_size <= q_len,
                n_seq * (n_kv_heads * head_size) <= k_len,
                steps <= n_seq,
                t <= steps,
                attn@.len() == t,
                head_scored(*step, *scale, zero, q, k_cache, h as int, attn@),
            decreases steps - t,
        {
            proof {
                lemma_key_inside(
                    t as int,
                    kvh as int,
                    n_seq as int,
                    n_kv_heads as int,
                    head_size as int,
                );
            }
            let k_start = (t * n_kv_heads + kvh) * head_size;
            let d = mac_strided(step, zero, qb, h * head_size, 1, kb, k_start, 1, head_size);
            let s = scale(d, head_size);
            let ghost before = attn@;
            attn.push(s);
            proof {
                assert(mac_fold(
                    *step,
                    zero,
                    strided(q@, h * head_size, 1, head_size as nat),
                    strided(
                        k_cache@,
                        (t * (n_kv_heads as int) + kvh) * head_size,
                        1,
                        head_size as nat,
                    ),
                    d,
                ) && call_ensures(*scale, (d, head_size), s));
                assert(score_of(*step, *scale, zero, q, k_cache, h as int, t as int, s));
                assert forall|u: int| 0 <= u < attn@.len() implies score_of(
                    *step,
                    *scale,
                    zero,
                    q,
                    k_cache,
                    h as int,
                    u,
                    #[trigger] attn@[u],
                ) by {
                    if u < t {
                        assert(attn@[u] == before[u]);
                    }
                }
            }
            t = t + 1;
        }
        let ghost scores = attn@;
        softmax_walk(attn.as_mut_slice(), 1, steps, lowest, zero, max_of, exp_shift, plus, div);
        // Mix the cached values of the key-value head by the probabilities.
        let ghost done = out@;
        let mut j: usize = 0;
        while j < head_size
            invariant
                total3(*step),
                vb@ == v_cache@,
                v_len == vb@.len(),
                q.spec_shape().len() == 2,
                v_cache.spec_shape().len() == 3,
                v_cache.spec_strides().len() == 3,
                n_seq >= 1 && n_kv_heads >= 1 && head_size >= 1,
                vs0 == v_cache.spec_strides()[0],
                vs1 == v_cache.spec_strides()[1],
                vs2 == v_cache.spec_strides()[2],
                (n_seq - 1) * vs0 + (n_kv_heads - 1) * vs1 + (head_size - 1) * vs2 < v_len,
                n_heads == q.spec_shape()[0],
                head_size == q.spec_shape()[1],
                n_kv_heads == v_cache.spec_shape()[1],
                kvh == kv_head_of(h as int, n_heads as int, n_kv_heads as int),
                kvh < n_kv_heads,
                steps <= n_seq,
                attn@.len() == steps,
                j <= head_size,
                out@.len() == h * head_size + j,
                forall|i: int| 0 <= i < h * head_size ==> out@[i] == done[i],
                done.len() == h * head_size,
                forall|i: int|
                    0 <= i < j ==> mac_fold(
                        *step,
                        zero,
                        strided(v_cache@, kvh * vs1 + i * vs2, vs0 as int, steps as nat),
                        attn@,
                        #[trigger] out@[h * head_size + i],
                    ),
            decreases head_size - j,
        {
            proof {
                lemma_strided_in_bounds(0, vs1 as int, n_kv_heads as int, kvh as int);
                lemma_strided_in_bounds(0, vs2 as int, head_size as int, j as int);
                if steps > 0 {
                    lemma_strided_in_bounds(0, vs0 as int, n_seq as int, steps - 1);
                }
                lemma_reach_nonnegative(n_seq as int, vs0 as int);
                lemma_reach_nonnegative(n_kv_heads as int, vs1 as int);
                lemma_reach_nonnegative(head_size as int, vs2 as int);
            }
            let v_start = kvh * vs1 + j * vs2;
            let o = mac_strided(step, zero, vb, v_start, vs0, attn.as_slice(), 0, 1, steps);
            proof {
                assert(strided(attn@, 0, 1, steps as nat) =~= attn@);
            }
            out.push(o);
            j = j + 1;
        }
        proof {
            assert((h + 1) * head_size == h * head_size + head_size) by (nonlinear_arith);
            let probs = attn@;
            assert(head_mixed(*step, zero, q, v_cache, h as int, probs, out@));
            assert(head_attended(
                *step,
                *scale,
                *max_of,
                *exp_shift,
                *plus,
                *div,
                zero,
                lowest,
                q,
                k_cache,
                v_cache,
                h as int,
                steps as nat,
                out@,
            )) by {
                assert(scores.len() == steps);
                assert(head_scored(*step, *scale, zero, q, k_cache, h as int, scores));
                assert(softmax_post(
                    *max_of,
                    *exp_shift,
                    *plus,
                    *div,
                    lowest,
                    zero,
                    scores,
                    probs,
                    1,
                    steps as nat,
                ));
            }
            assert forall|g: int| 0 <= g < h implies #[trigger] head_attended(
                *step,
                *scale,
                *max_of,
                *exp_shift,
                *plus,
                *div,
                zero,
                lowest,
                q,
                k_cache,
                v_cache,
                g,
                steps as nat,
                out@,
            ) by {
                assert((g + 1) * head_size <= h * head_size) by (nonlinear_arith)
                    requires
                        g + 1 <= h,
                        head_size >= 0,
                ;
                lemma_head_kept(
                    *step,
                    *scale,
                    *max_of,
                    *exp_shift,
                    *plus,
                    *div,
                    zero,
                    lowest,
                    q,
                    k_cache,
                    v_cache,
                    g,
                    steps as nat,
                    done,
                    out@,
                );
            }
        }
        h = h + 1;
    }
    CpuTensor::new(out, crate::error::copy_shape(q.shape()))
}

/// A head's row of the output, once written, is not affected by what is
/// appended after it.
proof fn lemma_head_kept<
    T: Copy,
    F: Fn(T, T, T) -> T,
    S: Fn(T, usize) -> T,
    M: Fn(T, T) -> T,
    E: Fn(T, T) -> T,
    A: Fn(T, T) -> T,
    D: Fn(T, T) -> T,
>(
    step: F,
    scale: S,
    max_of: M,
    exp_shift: E,
    plus: A,
    div: D,
    zero: T,
    lowest: T,
    q: &CpuTensor<'_, T>,
    k_cache: &CpuTensor<'_, T>,
    v_cache: &CpuTensor<'_, T>,
    g: int,
    steps: nat,
    done: Seq<T>,
    out: Seq<T>,
)
    requires
        0 <= g,
        (g + 1) * q.spec_shape()[1] <= done.len() <= out.len(),
        forall|i: int| 0 <= i < done.len() ==> out[i] == done[i],
        head_attended(
            step,
            scale,
            max_of,
            exp_shift,
            plus,
            div,
            zero,
            lowest,
            q,
            k_cache,
            v_cache,
            g,
            steps,
            done,
        ),
    ensures
        head_attended(
            step,
            scale,
            max_of,
            exp_shift,
            plus,
            div,
            zero,
            lowest,
            q,
            k_cache,
            v_cache,
            g,
            steps,
            out,
        ),
{
    let head_size = q.spec_shape()[1] as int;
    let (scores, probs) = choose|scores: Seq<T>, probs: Seq<T>|
        {
            &&& scores.len() == steps
            &&& head_scored(step, scale, zero, q, k_cache, g, scores)
            &&& #[trigger] softmax_post(
                max_of,
                exp_shift,
                plus,
                div,
                lowest,
                zero,
                scores,
                probs,
                1,
                steps,
            )
            &&& head_mixed(step, zero, q, v_cache, g, probs, done)
        };
    assert((g + 1) * head_size == g * head_size + head_size) by (nonlinear_arith);
    assert(0 <= g * head_size) by (nonlinear_arith)
        requires
            0 <= g,
            0 <= head_size,
    ;
    assert(head_mixed(step, zero, q, v_cache, g, probs, out));
}

/// With a number of query heads that is a multiple of the number of
/// key-value heads, the groups are not empty and fill the query heads.
proof fn lemma_group(n_heads: int, n_kv_heads: int)
    requires
        n_heads >= 1,
        n_kv_heads >= 1,
        n_heads % n_kv_heads == 0,
    ensures
        n_heads / n_kv_heads >= 1,
        (n_heads / n_kv_heads) * n_kv_heads == n_heads,
{
    vstd::arithmetic::div_mod::lemma_fundamental_div_mod(n_heads, n_kv_heads);
    let g = n_heads / n_kv_heads;
    assert(n_kv_heads * g == g * n_kv_heads) by (nonlinear_arith);
    assert(g >= 1) by (nonlinear_arith)
        requires
            g * n_kv_heads == n_heads,
            n_heads >= 1,
            n_kv_heads >= 1,
    ;
}

/// Every query head has a key-value head.
proof fn lemma_kv_head_inside(h: int, group: int, n_kv_heads: int)
    requires
        group >= 1,
        0 <= h < group * n_kv_heads,
    ensures
        0 <= h / group < n_kv_heads,
{
    assert(0 <= h / group < n_kv_heads) by (nonlinear_arith)
        requires
            group >= 1,
            0 <= h < group * n_kv_heads,
    ;
}

/// A cached key lies inside a densely packed key cache.
proof fn lemma_key_inside(t: int, kvh: int, n_seq: int, n_kv_heads: int, head_size: int)
    requires
        0 <= t < n_seq,
        0 <= kvh < n_kv_heads,
        head_size >= 1,
    ensures
        0 <= t * n_kv_heads,
        0 <= t * n_kv_heads + kvh < n_seq * (n_kv_heads * head_size),
        0 <= (t * n_kv_heads + kvh) * head_size,
        (t * n_kv_heads + kvh) * head_size + head_size <= n_seq * (n_kv_heads * head_size),
{
    assert(0 <= t * n_kv_heads && t * n_kv_heads + kvh + 1 <= n_seq * n_kv_heads)
        by (nonlinear_arith)
        requires
            0 <= t,
            t + 1 <= n_seq,
            0 <= kvh,
            kvh + 1 <= n_kv_heads,
    ;
    let r = t * n_kv_heads + kvh;
    assert(0 <= r * head_size && r * head_size + head_size <= (n_seq * n_kv_heads) * head_size)
        by (nonlinear_arith)
        requires
            0 <= r,
            r + 1 <= n_seq * n_kv_heads,
            head_size >= 1,
    ;
    assert((n_seq * n_kv_heads) * head_size == n_seq * (n_kv_heads * head_size))
        by (nonlinear_arith);
    assert(r < r * head_size + head_size) by (nonlinear_arith)
        requires
            0 <= r,
            head_size >= 1,
    ;
}

/// The second formulation of multi-query attention. It yields what
/// `tensor_multi_query_attention` yields.
pub fn tensor_multi_query_attention2<
    'a,
    T: Copy,
    F: Fn(T, T, T) -> T,
    S: Fn(T, usize) -> T,
    M: Fn(T, T) -> T,
    E: Fn(T, T) -> T,
    A: Fn(T, T) -> T,
    D: Fn(T, T) -> T,
>(
    q: &CpuTensor<'a, T>,
    k_cache: &CpuTensor<'a, T>,
    v_cache: &CpuTensor<'a, T>,
    pos: usize,
    zero: T,
    lowest: T,
    step: &F,
    scale: &S,
    max_of: &M,
    exp_shift: &E,
    plus: &A,
    div: &D,
) -> (r: Result<CpuTensor<'a, T>>)
    requires
        q.wf(),
        k_cache.wf(),
        v_cache.wf(),
        total3(*step),
        total2(*scale),
        total2(*max_of),
        total2(*exp_shift),
        total2(*plus),
        total2(*div),
    ensures
        r is Ok <==> attention_accepts(q, k_cache, v_cache),
        r matches Ok(out) ==> {
            &&& out.wf()
            &&& out.spec_is_contiguous()
            &&& out.spec_is_owned()
            &&& out.spec_shape() == q.spec_shape()
            &&& out@.len() == q.spec_shape()[0] * q.spec_shape()[1]
            &&& forall|h: int|
                0 <= h < q.spec_shape()[0] ==> #[trigger] head_attended(
                    *step,
                    *scale,
                    *max_of,
                    *exp_shift,
                    *plus,
                    *div,
                    zero,
                    lowest,
                    q,
                    k_cache,
                    v_cache,
                    h,
                    attended_steps(pos, k_cache.spec_shape()[0]),
                    out@,
                )
        },
        r matches Err(e) ==> {
            &&& e.kind == ErrorKind::TensorShape
            &&& e.left@ == attention_error_shapes(q, k_cache, v_cache).0
            &&& e.right@ == attention_error_shapes(q, k_cache, v_cache).1
        },
{
    tensor_multi_query_attention(
        q,
        k_cache,
        v_cache,
        pos,
        zero,
        lowest,
        step,
        scale,
        max_of,
        exp_shift,
        plus,
        div,
    )
}


/// Element-wise `a[i] = times(a[i], b[i])` on two tensors of the same
/// shape, in row-major order.
///
/// `a` has to own its storage and to be densely packed; `b` may have any
/// layout. Storage of `a` past its last element is left alone.
pub fn tensor_mul_inplace<'a, T: Copy, F: Fn(T, T) -> T>(
    a: CpuTensor<'a, T>,
    b: &CpuTensor<'a, T>,
    times: F,
) -> (r: Result<CpuTensor<'a, T>>)
    requires
        a.wf(),
        b.wf(),
        total2(times),
    ensures
        r is Ok <==> a.spec_is_owned() && a.spec_shape() == b.spec_shape()
            && a.spec_is_contiguous(),
        r matches Ok(out) ==> {
            &&& out.wf()
            &&& out.spec_is_owned()
            &&& out.spec_strider() == a.spec_strider()
            &&& out@.len() == a@.len()
            &&& forall|i: int|
                0 <= i < a.spec_strider().spec_len() ==> call_ensures(
                    times,
                    (a@[i], b@[b.spec_strider().spec_offset_of(i)]),
                    #[trigger] out@[i],
                )
            &&& forall|i: int|
                a.spec_strider().spec_len() <= i < a@.len() ==> #[trigger] out@[i] == a@[i]
        },
        r matches Err(e) ==> {
            &&& e.kind == ErrorKind::TensorShape
            &&& e.left@ == a.spec_shape()
            &&& e.right@ == b.spec_shape()
        },
{
    match require_tensor_shape(&a, b.shape()) {
        Err(_) => {
            return Err(misfit_pair(&a, b));
        },
        Ok(_) => {},
    }
    match require_tensor_owned(&a) {
        Err(_) => {
            return Err(misfit_pair(&a, b));
        },
        Ok(_) => {},
    }
    match require_tensor_contiguous(&a) {
        Err(_) => {
            return Err(misfit_pair(&a, b));
        },
        Ok(_) => {},
    }
    let n = a.len();
    proof {
        lemma_row_major_span(a.spec_shape(), a.spec_strides(), 0);
        assert(n <= a@.len());
    }
    let mut a = a;
    let ghost before = a@;
    let buf = a.buf_mut();
    let mut i: usize = 0;
    while i < n
        invariant
            total2(times),
            b.wf(),
            i <= n,
            n <= buf@.len(),
            buf@.len() == before.len(),
            forall|t: int|
                0 <= t < i ==> call_ensures(
                    times,
                    (before[t], b@[b.spec_strider().spec_offset_of(t)]),
                    #[trigger] buf@[t],
                ),
            forall|t: int| i <= t < buf@.len() ==> #[trigger] buf@[t] == before[t],
        decreases n - i,
    {
        let v = times(buf[i], b.at(i));
        buf[i] = v;
        i = i + 1;
    }
    Ok(a)
}

/// Rotating forth and back restores the scalars.
///
/// When `back` undoes `forth` on every pair (whatever `forth` can return
/// for a pair, `back` can only return that pair for it), rotating the
/// leading `n` scalars with `forth` and then with `back` gives the scalars
/// one started from.
pub proof fn lemma_rotation_round_trip<
    T,
    F: Fn(T, T, usize, usize, usize) -> (T, T),
    G: Fn(T, T, usize, usize, usize) -> (T, T),
>(
    forth: F,
    back: G,
    before: Seq<T>,
    mid: Seq<T>,
    after: Seq<T>,
    n: int,
    head_size: usize,
    pos: usize,
)
    requires
        0 <= n <= before.len(),
        n % 2 == 0,
        forall|a: T, b: T, d: usize, h: usize, p: usize, c0: T, c1: T, e0: T, e1: T|
            #[trigger] call_ensures(forth, (a, b, d, h, p), (c0, c1)) && #[trigger] call_ensures(
                back,
                (c0, c1, d, h, p),
                (e0, e1),
            ) ==> e0 == a && e1 == b,
        rotated_below(forth, before, mid, n, head_size, pos),
        rotated_below(back, mid, after, n, head_size, pos),
    ensures
        after == before,
{
    assert forall|j: int| 0 <= j < before.len() implies after[j] == before[j] by {
        if j < n {
            let i = if j % 2 == 0 {
                j
            } else {
                j - 1
            };
            assert(pair_rotated(forth, before, mid, i, head_size, pos));
            assert(pair_rotated(back, mid, after, i, head_size, pos));
        } else {
            assert(mid[j] == before[j]);
            assert(after[j] == mid[j]);
        }
    }
    assert(after =~= before);
}

} // verus!
