use crate::accumulate::{mac_fold, strided, total3};
use crate::backends::cpu::buf::api::{vec_dot_accepts, CpuTensorBuf};
use crate::backends::cpu::buf::buf_quant::{block_encoded, run_dots, run_headers};
use crate::error::{Error, ErrorKind, Result};
use crate::gguf::GGMLType;
use vstd::prelude::*;
use vstd::slice::slice_subrange;
use vstd::slice::slice_to_vec;

verus! {

/// The buffers a matrix-vector product accepts: weights of any format but
/// `F16` with `rows * cols` elements, a vector of `cols` `F32` scalars and
/// an owned `F32` output of `rows` elements, with `cols` a whole number of
/// blocks where the weights are block-quantized (and the encoded vector of a
/// size that is a machine integer).
pub open spec fn matmul_vec_accepts(
    w: &CpuTensorBuf<'_>,
    x: &CpuTensorBuf<'_>,
    out: &CpuTensorBuf<'_>,
    rows: usize,
    cols: usize,
) -> bool {
    &&& w.spec_dtype() != GGMLType::F16
    &&& x.spec_dtype() == GGMLType::F32
    &&& out.spec_dtype() == GGMLType::F32
    &&& out.spec_is_owned()
    &&& rows * cols == w.spec_len()
    &&& x.spec_len() == cols
    &&& out.spec_len() == rows
    &&& w.spec_dtype().spec_is_quantized() ==> {
        &&& cols % 32 == 0
        &&& (cols / 32) * w.spec_dtype().spec_vec_dot_rhs().spec_block_bytes() <= usize::MAX
    }
}

/// The kind of error the buffers of a matrix-vector product are rejected
/// with: a wrong format first, then a length that is no whole number of
/// blocks, then lengths that do not fit each other.
pub open spec fn matmul_vec_error(
    w: &CpuTensorBuf<'_>,
    x: &CpuTensorBuf<'_>,
    out: &CpuTensorBuf<'_>,
    cols: usize,
) -> ErrorKind {
    if w.spec_dtype() == GGMLType::F16 || x.spec_dtype() != GGMLType::F32 || out.spec_dtype()
        != GGMLType::F32 {
        ErrorKind::TensorDtype
    } else if w.spec_dtype().spec_is_quantized() && cols % 32 != 0 {
        ErrorKind::TensorAlignment
    } else {
        ErrorKind::TensorShape
    }
}

/// Every row of the output is the dot product of that row of the weights
/// with the right operand `xq`.
pub open spec fn rows_dotted<F: Fn(u32, u32, u32) -> u32, S: Fn(u32, i32, (u16, u16, u16, u16)) -> u32>(
    step: F,
    scale: S,
    zero: u32,
    w: &CpuTensorBuf<'_>,
    xq: &CpuTensorBuf<'_>,
    cols: usize,
    out: Seq<u32>,
) -> bool {
    forall|i: int|
        0 <= i < out.len() ==> {
            &&& w.spec_dtype() == GGMLType::F32 ==> mac_fold(
                step,
                zero,
                strided(w.spec_f32(), i * cols, 1, cols as nat),
                strided(xq.spec_f32(), 0, 1, cols as nat),
                #[trigger] out[i],
            )
            &&& w.spec_dtype().spec_is_quantized() ==> mac_fold(
                scale,
                zero,
                run_dots(
                    w.spec_raw(),
                    w.spec_dtype(),
                    (i * cols) / 32,
                    xq.spec_raw(),
                    xq.spec_dtype(),
                    0,
                    (cols / 32) as nat,
                ),
                run_headers(
                    w.spec_raw(),
                    w.spec_dtype(),
                    (i * cols) / 32,
                    xq.spec_raw(),
                    xq.spec_dtype(),
                    0,
                    (cols / 32) as nat,
                ),
                out[i],
            )
        }
}

/// What a matrix-vector product leaves in the output.
///
/// There is a right operand `xq` in the format that goes with the weights:
/// the vector itself for `F32` weights, its encoding through `header_of`
/// and `quant` for block-quantized ones. Every row of the output is the dot
/// product of that row of the weights with `xq`.
pub open spec fn matmul_vec_post<
    F: Fn(u32, u32, u32) -> u32,
    S: Fn(u32, i32, (u16, u16, u16, u16)) -> u32,
    H: Fn(&[u32], GGMLType) -> (u16, u16),
    Q: Fn(u32, u16, u16, GGMLType) -> i8,
>(
    step: F,
    scale: S,
    header_of: H,
    quant: Q,
    zero: u32,
    w: &CpuTensorBuf<'_>,
    x: &CpuTensorBuf<'_>,
    cols: usize,
    out: Seq<u32>,
) -> bool {
    exists|xq: CpuTensorBuf<'_>|
        {
            &&& xq.wf()
            &&& xq.spec_dtype() == w.spec_dtype().spec_vec_dot_rhs()
            &&& xq.spec_len() == cols
            &&& w.spec_dtype() == GGMLType::F32 ==> xq.spec_f32() == x.spec_f32()
            &&& w.spec_dtype().spec_is_quantized() ==> forall|c: int|
                0 <= c < cols / 32 ==> #[trigger] block_encoded(
                    header_of,
                    quant,
                    x.spec_f32(),
                    xq.spec_raw(),
                    xq.spec_dtype(),
                    c,
                )
            &&& #[trigger] rows_dotted(step, scale, zero, w, &xq, cols, out)
        }
}

/// Matrix-vector product `out = w @ x` for weights of `rows` rows and
/// `cols` columns in any format but `F16`.
///
/// The vector is first brought into the format that goes with the weights.
/// Then each row of the weights is dotted with it through the kernel of
/// that pair of formats. Buffers that do not fit are rejected and the
/// output is left as it was.
pub fn matmul_vec<
    F: Fn(u32, u32, u32) -> u32,
    S: Fn(u32, i32, (u16, u16, u16, u16)) -> u32,
    N: Fn(u32) -> u16,
    H: Fn(&[u32], GGMLType) -> (u16, u16),
    Q: Fn(u32, u16, u16, GGMLType) -> i8,
>(
    w: &CpuTensorBuf<'_>,
    x: &CpuTensorBuf<'_>,
    out: &mut CpuTensorBuf<'_>,
    rows: usize,
    cols: usize,
    zero: u32,
    step: &F,
    scale: &S,
    narrow: &N,
    header_of: &H,
    quant: &Q,
) -> (r: Result<()>)
    requires
        w.wf(),
        total3(*step),
        total3(*scale),
        forall|v: u32| call_requires(*narrow, (v,)),
        forall|chunk: &[u32], t: GGMLType|
            chunk@.len() == 32 ==> call_requires(*header_of, (chunk, t)),
        forall|v: u32, d: u16, aux: u16, t: GGMLType| call_requires(*quant, (v, d, aux, t)),
    ensures
        final(out).spec_dtype() == old(out).spec_dtype(),
        final(out).spec_is_owned() == old(out).spec_is_owned(),
        r is Ok <==> matmul_vec_accepts(w, x, old(out), rows, cols),
        r is Ok ==> final(out).spec_f32().len() == rows && matmul_vec_post(
            *step,
            *scale,
            *header_of,
            *quant,
            zero,
            w,
            x,
            cols,
            final(out).spec_f32(),
        ),
        r matches Err(e) ==> *final(out) == *old(out) && e.spec_is_bare() && e.kind
            == matmul_vec_error(w, x, old(out), cols),
{
    if w.dtype() == GGMLType::F16 || x.dtype() != GGMLType::F32 || out.dtype() != GGMLType::F32 {
        return Err(Error::bare(ErrorKind::TensorDtype));
    }
    if w.is_quantized() && cols % 32 != 0 {
        return Err(Error::bare(ErrorKind::TensorAlignment));
    }
    let w_len = w.len();
    let fits = match rows.checked_mul(cols) {
        Some(n) => n == w_len,
        None => false,
    };
    if !fits || !out.is_owned() || x.as_f32_ref().len() != cols || out.as_f32_ref().len() != rows {
        return Err(Error::bare(ErrorKind::TensorShape));
    }
    let xq = if w.is_quantized() {
        match x.quantize(w.vec_dot_rhs_dtype(), narrow, header_of, quant) {
            Ok(q) => q,
            Err(e) => {
                return Err(e);
            },
        }
    } else {
        CpuTensorBuf::from_slice(x.as_f32_ref())
    };
    let dst = out.as_f32_mut();
    let mut i: usize = 0;
    while i < rows
        invariant
            w.wf(),
            xq.wf(),
            total3(*step),
            total3(*scale),
            w.spec_dtype() != GGMLType::F16,
            xq.spec_dtype() == w.spec_dtype().spec_vec_dot_rhs(),
            xq.spec_len() == cols,
            rows * cols == w.spec_len(),
            w_len == w.spec_len(),
            w.spec_dtype().spec_is_quantized() ==> cols % 32 == 0,
            i <= rows,
            dst@.len() == rows,
            rows_dotted(*step, *scale, zero, w, &xq, cols, dst@.take(i as int)),
        decreases rows - i,
    {
        proof {
            lemma_row_range(i as int, rows as int, cols as int);
        }
        let v = w.vec_dot(i * cols, &xq, 0, cols, zero, step, scale);
        let ghost before = dst@;
        dst[i] = v;
        proof {
            assert(dst@.take(i + 1) =~= before.take(i as int).push(v));
            assert forall|t: int| 0 <= t < i + 1 implies #[trigger] dst@.take(i + 1)[t] == (if t
                < i {
                before.take(i as int)[t]
            } else {
                v
            }) by {}
        }
        i = i + 1;
    }
    proof {
        assert(dst@.take(rows as int) =~= dst@);
    }
    Ok(())
}

/// A row of a matrix of `rows` rows lies inside the matrix, and on a block
/// boundary where the rows are whole blocks.
proof fn lemma_row_range(i: int, rows: int, cols: int)
    requires
        0 <= i < rows,
        0 <= cols,
    ensures
        0 <= i * cols,
        i * cols + cols <= rows * cols,
        cols % 32 == 0 ==> (i * cols) % 32 == 0,
{
    assert(0 <= i * cols && i * cols + cols <= rows * cols) by (nonlinear_arith)
        requires
            0 <= i,
            i + 1 <= rows,
            0 <= cols,
    ;
    if cols % 32 == 0 {
        let k = cols / 32;
        assert(i * cols == (i * k) * 32) by (nonlinear_arith)
            requires
                cols == 32 * k,
        ;
        vstd::arithmetic::div_mod::lemma_fundamental_div_mod_converse(i * cols, 32, i * k, 0);
    }
}

} // verus!
