use crate::accumulate::{
    lemma_len_fits, lemma_mac_fold_push, lemma_strided_in_bounds, mac_fold, mac_strided, strided,
    total3,
};
use crate::backends::cpu::buf::api::CpuTensorBuf;
use crate::backends::cpu::buf::buf_f16::quantize_f32_f16;
use crate::gguf::GGMLType;
use crate::tensor::strider::{lemma_rank3, lemma_reach_nonnegative, TensorStrider};
use vstd::prelude::*;

verus! {

/// The two descriptors describe operands of a batched product
/// `A (a_batch, m, k) @ B (b_batch, k, n)`: both have three axes, the inner
/// extents agree, and `a_batch` is a multiple of `b_batch`.
pub open spec fn batch_operands_fit(s1: TensorStrider, s2: TensorStrider) -> bool {
    &&& s1.wf()
    &&& s2.wf()
    &&& s1.spec_shape().len() == 3
    &&& s2.spec_shape().len() == 3
    &&& s1.spec_shape()[2] == s2.spec_shape()[1]
    &&& s1.spec_shape()[0] % s2.spec_shape()[0] == 0
}

/// Number of elements of the product: `a_batch * m * n`.
pub open spec fn batch_out_len(s1: TensorStrider, s2: TensorStrider) -> int {
    s1.spec_shape()[0] * (s1.spec_shape()[1] * s2.spec_shape()[2])
}

/// Batch index of the `p`-th output element.
pub open spec fn batch_of(s1: TensorStrider, s2: TensorStrider, p: int) -> int {
    (p / (s2.spec_shape()[2] as int)) / (s1.spec_shape()[1] as int)
}

/// Row index of the `p`-th output element.
pub open spec fn row_of(s1: TensorStrider, s2: TensorStrider, p: int) -> int {
    (p / (s2.spec_shape()[2] as int)) % (s1.spec_shape()[1] as int)
}

/// Column index of the `p`-th output element.
pub open spec fn col_of(s2: TensorStrider, p: int) -> int {
    p % (s2.spec_shape()[2] as int)
}

/// Where the row of `A` that feeds the `p`-th output element starts.
pub open spec fn a_row_start(s1: TensorStrider, s2: TensorStrider, p: int) -> int {
    batch_of(s1, s2, p) * s1.spec_strides()[0] + row_of(s1, s2, p) * s1.spec_strides()[1]
}

/// Where the column of `B` that feeds the `p`-th output element starts. The
/// batch of `B` is the output batch modulo `b_batch`.
pub open spec fn b_col_start(s1: TensorStrider, s2: TensorStrider, p: int) -> int {
    (batch_of(s1, s2, p) % (s2.spec_shape()[0] as int)) * s2.spec_strides()[0] + col_of(s2, p)
        * s2.spec_strides()[2]
}

/// The row of `A` that feeds the `p`-th output element, along `k`.
pub open spec fn a_row<L>(a: Seq<L>, s1: TensorStrider, s2: TensorStrider, p: int) -> Seq<L> {
    strided(a, a_row_start(s1, s2, p), s1.spec_strides()[2] as int, s1.spec_shape()[2] as nat)
}

/// The column of `B` that feeds the `p`-th output element, along `k`.
pub open spec fn b_col<R>(b: Seq<R>, s1: TensorStrider, s2: TensorStrider, p: int) -> Seq<R> {
    strided(b, b_col_start(s1, s2, p), s2.spec_strides()[1] as int, s1.spec_shape()[2] as nat)
}

/// Extents and strides of the two operands, read once.
struct Layout {
    a_batch: usize,
    b_batch: usize,
    m: usize,
    k: usize,
    n: usize,
    sa0: usize,
    sa1: usize,
    sa2: usize,
    sb0: usize,
    sb1: usize,
    sb2: usize,
    total: usize,
}

impl Layout {
    spec fn matches(&self, s1: TensorStrider, s2: TensorStrider) -> bool {
        &&& self.a_batch == s1.spec_shape()[0]
        &&& self.m == s1.spec_shape()[1]
        &&& self.k == s1.spec_shape()[2]
        &&& self.b_batch == s2.spec_shape()[0]
        &&& self.n == s2.spec_shape()[2]
        &&& self.sa0 == s1.spec_strides()[0]
        &&& self.sa1 == s1.spec_strides()[1]
        &&& self.sa2 == s1.spec_strides()[2]
        &&& self.sb0 == s2.spec_strides()[0]
        &&& self.sb1 == s2.spec_strides()[1]
        &&& self.sb2 == s2.spec_strides()[2]
        &&& self.total == batch_out_len(s1, s2)
        &&& self.a_batch > 0 && self.b_batch > 0 && self.m > 0 && self.k > 0 && self.n > 0
        &&& (self.a_batch - 1) * self.sa0 + (self.m - 1) * self.sa1 + (self.k - 1) * self.sa2
            == s1.spec_span()
        &&& (self.b_batch - 1) * self.sb0 + (self.k - 1) * self.sb1 + (self.n - 1) * self.sb2
            == s2.spec_span()
    }

    fn read(s1: &TensorStrider, s2: &TensorStrider) -> (l: Layout)
        requires
            batch_operands_fit(*s1, *s2),
            batch_out_len(*s1, *s2) <= usize::MAX,
        ensures
            l.matches(*s1, *s2),
    {
        proof {
            lemma_rank3(s1.spec_shape(), s1.spec_strides());
            lemma_rank3(s2.spec_shape(), s2.spec_strides());
        }
        let s1s = s1.shape();
        let s2s = s2.shape();
        let t1 = s1.strides();
        let t2 = s2.strides();
        let a_batch = s1s[0];
        let m = s1s[1];
        let n = s2s[2];
        assert(m * n <= a_batch * (m * n)) by (nonlinear_arith)
            requires
                a_batch >= 1,
                m * n >= 0,
        ;
        let mn = m * n;
        Layout {
            a_batch,
            b_batch: s2s[0],
            m,
            k: s1s[2],
            n,
            sa0: t1[0],
            sa1: t1[1],
            sa2: t1[2],
            sb0: t2[0],
            sb1: t2[1],
            sb2: t2[2],
            total: a_batch * mn,
        }
    }
}

/// Batch, row and column of an output position all lie inside the output.
proof fn lemma_split_position(p: int, a_batch: int, m: int, n: int)
    requires
        0 <= p < a_batch * (m * n),
        a_batch > 0,
        m > 0,
        n > 0,
    ensures
        0 <= (p / n) / m < a_batch,
        0 <= (p / n) % m < m,
        0 <= p % n < n,
{
    assert(p / n < a_batch * m && p / n >= 0) by (nonlinear_arith)
        requires
            0 <= p < a_batch * (m * n),
            n > 0,
    ;
    let q = p / n;
    assert(q / m < a_batch && q / m >= 0) by (nonlinear_arith)
        requires
            0 <= q < a_batch * m,
            m > 0,
    ;
}

/// Start offsets of the operands of one output element, with the proof that
/// the whole row and the whole column lie inside the buffers.
fn operand_starts(l: &Layout, p: usize, Ghost(s1): Ghost<TensorStrider>, Ghost(s2): Ghost<TensorStrider>) -> (r: (usize, usize))
    requires
        l.matches(s1, s2),
        p < l.total,
        s1.spec_span() < usize::MAX,
        s2.spec_span() < usize::MAX,
    ensures
        r.0 == a_row_start(s1, s2, p as int),
        r.1 == b_col_start(s1, s2, p as int),
        r.0 + (l.k - 1) * l.sa2 <= s1.spec_span(),
        r.1 + (l.k - 1) * l.sb1 <= s2.spec_span(),
{
    let q = p / l.n;
    let bi = q / l.m;
    let mi = q % l.m;
    let ni = p % l.n;
    let bb = bi % l.b_batch;
    proof {
        lemma_split_position(p as int, l.a_batch as int, l.m as int, l.n as int);
        lemma_strided_in_bounds(0, l.sa0 as int, l.a_batch as int, bi as int);
        lemma_strided_in_bounds(0, l.sa1 as int, l.m as int, mi as int);
        lemma_strided_in_bounds(0, l.sa2 as int, l.k as int, 0);
        lemma_strided_in_bounds(0, l.sb0 as int, l.b_batch as int, bb as int);
        lemma_strided_in_bounds(0, l.sb1 as int, l.k as int, 0);
        lemma_strided_in_bounds(0, l.sb2 as int, l.n as int, ni as int);
    }
    (bi * l.sa0 + mi * l.sa1, bb * l.sb0 + ni * l.sb2)
}

/// Batched product `C += A @ B` with arbitrary strides on both operands.
///
/// Every output element starts from the value already in `bufc` and takes in
/// the `k` operand pairs of its row and column in ascending order of `k`.
/// Elements of `bufc` past the output are left alone.
pub fn batch_matmul_naive<A: Copy, L: Copy, R: Copy, F: Fn(A, L, R) -> A>(
    bufa: &[L],
    bufb: &[R],
    bufc: &mut [A],
    stride1: &TensorStrider,
    stride2: &TensorStrider,
    step: &F,
)
    requires
        total3(*step),
        batch_operands_fit(*stride1, *stride2),
        stride1.spec_span() < bufa@.len(),
        stride2.spec_span() < bufb@.len(),
        batch_out_len(*stride1, *stride2) <= old(bufc)@.len(),
    ensures
        final(bufc)@.len() == old(bufc)@.len(),
        forall|p: int|
            0 <= p < batch_out_len(*stride1, *stride2) ==> mac_fold(
                *step,
                old(bufc)@[p],
                a_row(bufa@, *stride1, *stride2, p),
                b_col(bufb@, *stride1, *stride2, p),
                #[trigger] final(bufc)@[p],
            ),
        forall|p: int|
            batch_out_len(*stride1, *stride2) <= p < old(bufc)@.len() ==> #[trigger] final(bufc)@[p]
                == old(bufc)@[p],
{
    let a_len = bufa.len();
    let b_len = bufb.len();
    proof {
        lemma_len_fits(&*bufc);
    }
    let l = Layout::read(stride1, stride2);
    let mut p: usize = 0;
    while p < l.total
        invariant
            total3(*step),
            a_len == bufa@.len(),
            b_len == bufb@.len(),
            l.matches(*stride1, *stride2),
            stride1.spec_span() < bufa@.len(),
            stride2.spec_span() < bufb@.len(),
            p <= l.total <= bufc@.len(),
            bufc@.len() == old(bufc)@.len(),
            forall|q: int|
                0 <= q < p ==> mac_fold(
                    *step,
                    old(bufc)@[q],
                    a_row(bufa@, *stride1, *stride2, q),
                    b_col(bufb@, *stride1, *stride2, q),
                    #[trigger] bufc@[q],
                ),
            forall|q: int| p <= q < bufc@.len() ==> #[trigger] bufc@[q] == old(bufc)@[q],
        decreases l.total - p,
    {
        let (oa, ob) = operand_starts(&l, p, Ghost(*stride1), Ghost(*stride2));
        let v = mac_strided(step, bufc[p], bufa, oa, l.sa2, bufb, ob, l.sb1, l.k);
        bufc[p] = v;
        p = p + 1;
    }
}


/// Batched product `C += A @ B` on single-precision bit patterns, with
/// arbitrary strides on both operands.
pub fn batch_matmul_naive_f32<F: Fn(u32, u32, u32) -> u32>(
    bufa: &[u32],
    bufb: &[u32],
    bufc: &mut [u32],
    stride1: &TensorStrider,
    stride2: &TensorStrider,
    step: &F,
)
    requires
        total3(*step),
        batch_operands_fit(*stride1, *stride2),
        stride1.spec_span() < bufa@.len(),
        stride2.spec_span() < bufb@.len(),
        batch_out_len(*stride1, *stride2) <= old(bufc)@.len(),
    ensures
        final(bufc)@.len() == old(bufc)@.len(),
        forall|p: int|
            0 <= p < batch_out_len(*stride1, *stride2) ==> mac_fold(
                *step,
                old(bufc)@[p],
                a_row(bufa@, *stride1, *stride2, p),
                b_col(bufb@, *stride1, *stride2, p),
                #[trigger] final(bufc)@[p],
            ),
        forall|p: int|
            batch_out_len(*stride1, *stride2) <= p < old(bufc)@.len() ==> #[trigger] final(bufc)@[p]
                == old(bufc)@[p],
{
    batch_matmul_naive(bufa, bufb, bufc, stride1, stride2, step)
}

/// Batched product `C += A @ B` with half-precision operands and a
/// single-precision result, all as bit patterns.
pub fn batch_matmul_naive_f16<F: Fn(u32, u16, u16) -> u32>(
    bufa: &[u16],
    bufb: &[u16],
    bufc: &mut [u32],
    stride1: &TensorStrider,
    stride2: &TensorStrider,
    step: &F,
)
    requires
        total3(*step),
        batch_operands_fit(*stride1, *stride2),
        stride1.spec_span() < bufa@.len(),
        stride2.spec_span() < bufb@.len(),
        batch_out_len(*stride1, *stride2) <= old(bufc)@.len(),
    ensures
        final(bufc)@.len() == old(bufc)@.len(),
        forall|p: int|
            0 <= p < batch_out_len(*stride1, *stride2) ==> mac_fold(
                *step,
                old(bufc)@[p],
                a_row(bufa@, *stride1, *stride2, p),
                b_col(bufb@, *stride1, *stride2, p),
                #[trigger] final(bufc)@[p],
            ),
        forall|p: int|
            batch_out_len(*stride1, *stride2) <= p < old(bufc)@.len() ==> #[trigger] final(bufc)@[p]
                == old(bufc)@[p],
{
    batch_matmul_naive(bufa, bufb, bufc, stride1, stride2, step)
}

/// The first `n` operand pairs of output element `p`, accumulated.
pub open spec fn partial_entry<A, L, R, F: Fn(A, L, R) -> A>(
    step: F,
    init: A,
    a: Seq<L>,
    b: Seq<R>,
    s1: TensorStrider,
    s2: TensorStrider,
    p: int,
    n: nat,
    out: A,
) -> bool {
    mac_fold(
        step,
        init,
        strided(a, a_row_start(s1, s2, p), s1.spec_strides()[2] as int, n),
        strided(b, b_col_start(s1, s2, p), s2.spec_strides()[1] as int, n),
        out,
    )
}

/// `out` is the widening of a value that `step` can accumulate, from `zero`,
/// over the operand pairs of output element `p` in ascending order of `k`.
pub open spec fn widened_entry<F: Fn(u16, u16, u16) -> u16, W: Fn(u16) -> u32>(
    step: F,
    widen: W,
    zero: u16,
    a: Seq<u16>,
    b: Seq<u16>,
    s1: TensorStrider,
    s2: TensorStrider,
    p: int,
    out: u32,
) -> bool {
    exists|t: u16|
        mac_fold(step, zero, a_row(a, s1, s2, p), b_col(b, s1, s2, p), t) && #[trigger] call_ensures(
            widen,
            (t,),
            out,
        )
}

/// Adds operand pair `ki` to every element of output row `row`: for each
/// column `j`, `tmpc[row * n + j]` takes in `A[row, ki]` and `B[ki, j]`.
fn fma_row<F: Fn(u16, u16, u16) -> u16>(
    l: &Layout,
    bufa: &[u16],
    bufb: &[u16],
    tmpc: &mut Vec<u16>,
    row: usize,
    ki: usize,
    zero: u16,
    step: &F,
    Ghost(s1): Ghost<TensorStrider>,
    Ghost(s2): Ghost<TensorStrider>,
)
    requires
        total3(*step),
        l.matches(s1, s2),
        s1.spec_span() < bufa@.len(),
        s2.spec_span() < bufb@.len(),
        old(tmpc)@.len() == l.total,
        row < l.a_batch * l.m,
        ki < l.k,
        forall|p: int|
            row * l.n <= p < row * l.n + l.n ==> partial_entry(
                *step,
                zero,
                bufa@,
                bufb@,
                s1,
                s2,
                p,
                ki as nat,
                #[trigger] old(tmpc)@[p],
            ),
    ensures
        final(tmpc)@.len() == old(tmpc)@.len(),
        forall|p: int|
            row * l.n <= p < row * l.n + l.n ==> partial_entry(
                *step,
                zero,
                bufa@,
                bufb@,
                s1,
                s2,
                p,
                (ki + 1) as nat,
                #[trigger] final(tmpc)@[p],
            ),
        forall|p: int|
            0 <= p < old(tmpc)@.len() && !(row * l.n <= p < row * l.n + l.n)
                ==> #[trigger] final(tmpc)@[p] == old(tmpc)@[p],
{
    let a_len = bufa.len();
    let b_len = bufb.len();
    proof {
        lemma_row_inside(row as int, l.a_batch as int, l.m as int, l.n as int);
    }
    let base = row * l.n;
    let mut j: usize = 0;
    while j < l.n
        invariant
            total3(*step),
            l.matches(s1, s2),
            a_len == bufa@.len(),
            b_len == bufb@.len(),
            s1.spec_span() < a_len,
            s2.spec_span() < b_len,
            tmpc@.len() == l.total,
            tmpc@.len() == old(tmpc)@.len(),
            row < l.a_batch * l.m,
            base == row * l.n,
            base + l.n <= l.total,
            ki < l.k,
            j <= l.n,
            forall|p: int|
                base <= p < base + j ==> partial_entry(
                    *step,
                    zero,
                    bufa@,
                    bufb@,
                    s1,
                    s2,
                    p,
                    (ki + 1) as nat,
                    #[trigger] tmpc@[p],
                ),
            forall|p: int|
                base + j <= p < base + l.n ==> partial_entry(
                    *step,
                    zero,
                    bufa@,
                    bufb@,
                    s1,
                    s2,
                    p,
                    ki as nat,
                    #[trigger] tmpc@[p],
                ),
            forall|p: int|
                0 <= p < tmpc@.len() && !(base <= p < base + l.n) ==> #[trigger] tmpc@[p] == old(
                    tmpc,
                )@[p],
        decreases l.n - j,
    {
        let p = base + j;
        let (oa, ob) = operand_starts(l, p, Ghost(s1), Ghost(s2));
        proof {
            lemma_strided_in_bounds(oa as int, l.sa2 as int, l.k as int, ki as int);
            lemma_strided_in_bounds(ob as int, l.sb1 as int, l.k as int, ki as int);
            lemma_strided_in_bounds(0, l.sa2 as int, l.k as int, ki as int);
            lemma_strided_in_bounds(0, l.sb1 as int, l.k as int, ki as int);
        }
        let x = bufa[oa + ki * l.sa2];
        let y = bufb[ob + ki * l.sb1];
        let ghost prev = tmpc@[p as int];
        let v = step(tmpc[p], x, y);
        tmpc.set(p, v);
        proof {
            let ls = strided(bufa@, oa as int, l.sa2 as int, ki as nat);
            let rs = strided(bufb@, ob as int, l.sb1 as int, ki as nat);
            lemma_mac_fold_push(*step, zero, ls, rs, prev, x, y, v);
            assert(ls.push(x) =~= strided(bufa@, oa as int, l.sa2 as int, (ki + 1) as nat));
            assert(rs.push(y) =~= strided(bufb@, ob as int, l.sb1 as int, (ki + 1) as nat));
        }
        j = j + 1;
    }
}

/// The elements of output row `row` lie inside the output.
proof fn lemma_row_inside(row: int, a_batch: int, m: int, n: int)
    requires
        0 <= row < a_batch * m,
        n > 0,
    ensures
        0 <= row * n,
        row * n + n <= a_batch * (m * n),
{
    assert(row * n + n <= a_batch * (m * n) && 0 <= row * n) by (nonlinear_arith)
        requires
            0 <= row,
            row + 1 <= a_batch * m,
            n > 0,
    ;
}

/// Batched product `C = A @ B` on half-precision bit patterns.
///
/// `A` is densely packed; `B` is densely packed along `k` or along `n`.
/// Every output element is accumulated in half precision, from `zero`, over
/// the `k` operand pairs of its row and column in ascending order of `k`,
/// and widened once at the end. Which of the two layouts `B` has changes the
/// order in which the output elements are visited, not what they hold.
pub fn batch_matmul_simd_f16<F: Fn(u16, u16, u16) -> u16, W: Fn(u16) -> u32>(
    bufa: &[u16],
    bufb: &[u16],
    bufc: &mut [u32],
    stride1: &TensorStrider,
    stride2: &TensorStrider,
    zero: u16,
    step: &F,
    widen: &W,
)
    requires
        total3(*step),
        forall|t: u16| call_requires(*widen, (t,)),
        batch_operands_fit(*stride1, *stride2),
        stride1.spec_is_contiguous(),
        stride2.spec_strides()[1] == 1 || stride2.spec_strides()[2] == 1,
        stride1.spec_span() < bufa@.len(),
        stride2.spec_span() < bufb@.len(),
        batch_out_len(*stride1, *stride2) <= old(bufc)@.len(),
    ensures
        final(bufc)@.len() == old(bufc)@.len(),
        forall|p: int|
            0 <= p < batch_out_len(*stride1, *stride2) ==> widened_entry(
                *step,
                *widen,
                zero,
                bufa@,
                bufb@,
                *stride1,
                *stride2,
                p,
                #[trigger] final(bufc)@[p],
            ),
        forall|p: int|
            batch_out_len(*stride1, *stride2) <= p < old(bufc)@.len() ==> #[trigger] final(bufc)@[p]
                == old(bufc)@[p],
{
    let a_len = bufa.len();
    let b_len = bufb.len();
    proof {
        lemma_len_fits(&*bufc);
    }
    let l = Layout::read(stride1, stride2);
    let mut tmpc: Vec<u16> = Vec::new();
    let mut i: usize = 0;
    while i < l.total
        invariant
            i <= l.total,
            tmpc@.len() == i,
            forall|p: int| 0 <= p < i ==> tmpc@[p] == zero,
        decreases l.total - i,
    {
        tmpc.push(zero);
        i = i + 1;
    }
    if l.sb1 == 1 {
        // B is dense along k: one dot product per output element.
        batch_matmul_naive(bufa, bufb, tmpc.as_mut_slice(), stride1, stride2, step);
    } else {
        // B is dense along n: row by row, one operand pair at a time.
        proof {
            assert(l.total == (l.a_batch * l.m) * l.n) by (nonlinear_arith)
                requires
                    l.total == l.a_batch * (l.m * l.n),
            ;
            assert(l.a_batch * l.m <= l.total) by (nonlinear_arith)
                requires
                    l.total == (l.a_batch * l.m) * l.n,
                    l.n >= 1,
                    l.a_batch * l.m >= 0,
            ;
        }
        let rows = l.a_batch * l.m;
        let mut row: usize = 0;
        while row < rows
            invariant
                total3(*step),
                l.matches(*stride1, *stride2),
                a_len == bufa@.len(),
                b_len == bufb@.len(),
                stride1.spec_span() < a_len,
                stride2.spec_span() < b_len,
                rows == l.a_batch * l.m,
                l.total == rows * l.n,
                row <= rows,
                tmpc@.len() == l.total,
                forall|p: int|
                    0 <= p < row * l.n ==> partial_entry(
                        *step,
                        zero,
                        bufa@,
                        bufb@,
                        *stride1,
                        *stride2,
                        p,
                        l.k as nat,
                        #[trigger] tmpc@[p],
                    ),
                forall|p: int| row * l.n <= p < l.total ==> #[trigger] tmpc@[p] == zero,
            decreases rows - row,
        {
            proof {
                lemma_row_inside(row as int, l.a_batch as int, l.m as int, l.n as int);
                assert((row + 1) * l.n == row * l.n + l.n) by (nonlinear_arith);
            }
            let mut ki: usize = 0;
            while ki < l.k
                invariant
                    total3(*step),
                    l.matches(*stride1, *stride2),
                    a_len == bufa@.len(),
                    b_len == bufb@.len(),
                    stride1.spec_span() < a_len,
                    stride2.spec_span() < b_len,
                    rows == l.a_batch * l.m,
                    l.total == rows * l.n,
                    row < rows,
                    0 <= row * l.n,
                    row * l.n + l.n <= l.total,
                    (row + 1) * l.n == row * l.n + l.n,
                    ki <= l.k,
                    tmpc@.len() == l.total,
                    forall|p: int|
                        0 <= p < row * l.n ==> partial_entry(
                            *step,
                            zero,
                            bufa@,
                            bufb@,
                            *stride1,
                            *stride2,
                            p,
                            l.k as nat,
                            #[trigger] tmpc@[p],
                        ),
                    forall|p: int|
                        row * l.n <= p < row * l.n + l.n ==> partial_entry(
                            *step,
                            zero,
                            bufa@,
                            bufb@,
                            *stride1,
                            *stride2,
                            p,
                            ki as nat,
                            #[trigger] tmpc@[p],
                        ),
                    forall|p: int| row * l.n + l.n <= p < l.total ==> #[trigger] tmpc@[p] == zero,
                decreases l.k - ki,
            {
                fma_row(&l, bufa, bufb, &mut tmpc, row, ki, zero, step, Ghost(*stride1), Ghost(*stride2));
                ki = ki + 1;
            }
            row = row + 1;
        }
    }
    let mut p: usize = 0;
    while p < l.total
        invariant
            forall|t: u16| call_requires(*widen, (t,)),
            l.total == batch_out_len(*stride1, *stride2),
            l.k == stride1.spec_shape()[2],
            p <= l.total <= bufc@.len(),
            tmpc@.len() == l.total,
            bufc@.len() == old(bufc)@.len(),
            forall|q: int|
                0 <= q < l.total ==> partial_entry(
                    *step,
                    zero,
                    bufa@,
                    bufb@,
                    *stride1,
                    *stride2,
                    q,
                    l.k as nat,
                    #[trigger] tmpc@[q],
                ),
            forall|q: int|
                0 <= q < p ==> widened_entry(
                    *step,
                    *widen,
                    zero,
                    bufa@,
                    bufb@,
                    *stride1,
                    *stride2,
                    q,
                    #[trigger] bufc@[q],
                ),
            forall|q: int| p <= q < bufc@.len() ==> #[trigger] bufc@[q] == old(bufc)@[q],
        decreases l.total - p,
    {
        let t = tmpc[p];
        let v = widen(t);
        bufc[p] = v;
        proof {
            assert(partial_entry(
                *step,
                zero,
                bufa@,
                bufb@,
                *stride1,
                *stride2,
                p as int,
                l.k as nat,
                tmpc@[p as int],
            ));
            assert(mac_fold(
                *step,
                zero,
                a_row(bufa@, *stride1, *stride2, p as int),
                b_col(bufb@, *stride1, *stride2, p as int),
                t,
            ) && call_ensures(*widen, (t,), bufc@[p as int]));
        }
        p = p + 1;
    }
}


/// Where the row of `A` that feeds output element `i` of a batched
/// matrix-vector product starts. The batch of `A` is the output batch modulo
/// `a_batch`.
pub open spec fn gemv_row_start(
    i: int,
    a_batch: int,
    m: int,
    bi_stride: int,
    mi_stride: int,
) -> int {
    ((i / m) % a_batch) * bi_stride + (i % m) * mi_stride
}

/// Batched matrix-vector product `C = A @ B` with `A (a_batch, m, k)` read
/// through explicit strides, `B (b_batch, k)` densely packed and
/// `C (b_batch, m)`.
///
/// Output element `i` belongs to batch `i / m` and row `i % m`; it is
/// accumulated from `zero` over the `k` pairs of its row of `A` and its
/// batch of `B`, in ascending order.
pub fn gemv_strided_3d_2d_f32<F: Fn(u32, u32, u32) -> u32>(
    abuf: &[u32],
    bbuf: &[u32],
    cbuf: &mut [u32],
    a_batch: usize,
    m: usize,
    k: usize,
    bi_stride: usize,
    mi_stride: usize,
    ki_stride: usize,
    zero: u32,
    step: &F,
)
    requires
        total3(*step),
        a_batch > 0,
        m > 0,
        forall|i: int|
            0 <= i < old(cbuf)@.len() && k > 0 ==> #[trigger] gemv_row_start(
                i,
                a_batch as int,
                m as int,
                bi_stride as int,
                mi_stride as int,
            ) + (k - 1) * ki_stride < abuf@.len(),
        forall|i: int| 0 <= i < old(cbuf)@.len() ==> (#[trigger] (i / m as int) + 1) * k <= bbuf@.len(),
    ensures
        final(cbuf)@.len() == old(cbuf)@.len(),
        forall|i: int|
            0 <= i < old(cbuf)@.len() ==> mac_fold(
                *step,
                zero,
                strided(
                    abuf@,
                    gemv_row_start(i, a_batch as int, m as int, bi_stride as int, mi_stride as int),
                    ki_stride as int,
                    k as nat,
                ),
                strided(bbuf@, (i / m as int) * k, 1, k as nat),
                #[trigger] final(cbuf)@[i],
            ),
{
    let a_len = abuf.len();
    let b_len = bbuf.len();
    let n = cbuf.len();
    let mut i: usize = 0;
    while i < n
        invariant
            total3(*step),
            a_batch > 0,
            m > 0,
            a_len == abuf@.len(),
            b_len == bbuf@.len(),
            n == cbuf@.len(),
            n == old(cbuf)@.len(),
            i <= n,
            forall|t: int|
                0 <= t < n && k > 0 ==> #[trigger] gemv_row_start(
                    t,
                    a_batch as int,
                    m as int,
                    bi_stride as int,
                    mi_stride as int,
                ) + (k - 1) * ki_stride < abuf@.len(),
            forall|t: int| 0 <= t < n ==> (#[trigger] (t / m as int) + 1) * k <= bbuf@.len(),
            forall|t: int|
                0 <= t < i ==> mac_fold(
                    *step,
                    zero,
                    strided(
                        abuf@,
                        gemv_row_start(
                            t,
                            a_batch as int,
                            m as int,
                            bi_stride as int,
                            mi_stride as int,
                        ),
                        ki_stride as int,
                        k as nat,
                    ),
                    strided(bbuf@, (t / m as int) * k, 1, k as nat),
                    #[trigger] cbuf@[t],
                ),
        decreases n - i,
    {
        let bi = i / m;
        proof {
            assert(((i as int / m as int) + 1) * k <= b_len);
            assert((bi + 1) * k == bi * k + k) by (nonlinear_arith);
        }
        let ob = bi * k;
        let v = if k == 0 {
            let v = mac_strided(step, zero, abuf, 0, ki_stride, bbuf, ob, 1, k);
            proof {
                let start = gemv_row_start(
                    i as int,
                    a_batch as int,
                    m as int,
                    bi_stride as int,
                    mi_stride as int,
                );
                assert(strided(abuf@, 0, ki_stride as int, 0) =~= strided(
                    abuf@,
                    start,
                    ki_stride as int,
                    0,
                ));
            }
            v
        } else {
            let mi = i % m;
            let ba = bi % a_batch;
            proof {
                let start = gemv_row_start(
                    i as int,
                    a_batch as int,
                    m as int,
                    bi_stride as int,
                    mi_stride as int,
                );
                assert(start + (k - 1) * ki_stride < a_len);
                lemma_reach_nonnegative(k as int, ki_stride as int);
                assert(ba * bi_stride >= 0 && mi * mi_stride >= 0) by (nonlinear_arith)
                    requires
                        ba >= 0,
                        mi >= 0,
                        bi_stride >= 0,
                        mi_stride >= 0,
                ;
            }
            let oa = ba * bi_stride + mi * mi_stride;
            mac_strided(step, zero, abuf, oa, ki_stride, bbuf, ob, 1, k)
        };
        cbuf[i] = v;
        i = i + 1;
    }
}


/// The buffers and descriptors a batched product accepts.
///
/// `A` is `F32` and densely packed, `B` is `F32` or `F16` and densely packed
/// along `k` or along `n`, `C` is owned `F32`; the descriptors fit each
/// other, every element they address lies inside its buffer, and `C` has
/// room for the output.
pub open spec fn batch_matmul_accepts(
    bufa: &CpuTensorBuf<'_>,
    bufb: &CpuTensorBuf<'_>,
    bufc: &CpuTensorBuf<'_>,
    strider1: &TensorStrider,
    strider2: &TensorStrider,
) -> bool {
    &&& batch_operands_fit(*strider1, *strider2)
    &&& strider1.spec_is_contiguous()
    &&& strider2.spec_strides()[1] == 1 || strider2.spec_strides()[2] == 1
    &&& bufa.spec_dtype() == GGMLType::F32
    &&& bufb.spec_dtype() == GGMLType::F32 || bufb.spec_dtype() == GGMLType::F16
    &&& bufc.spec_dtype() == GGMLType::F32
    &&& bufc.spec_is_owned()
    &&& strider1.spec_span() < bufa.spec_len()
    &&& strider2.spec_span() < bufb.spec_len()
    &&& batch_out_len(*strider1, *strider2) <= bufc.spec_len()
}

/// Batched product of two tensor buffers into a third.
///
/// With an `F32` right operand the product is added to what `C` holds:
/// every output element starts from its old value and takes in its `k`
/// operand pairs through `step` in ascending order. With an `F16` right
/// operand the left operand is first narrowed element by element through
/// `narrow`; every output element is then accumulated in half precision
/// from `zero` through `step16` and widened once through `widen`, replacing
/// what `C` held. Elements of `C` past the output are left alone.
pub fn batch_matmul<
    F: Fn(u32, u32, u32) -> u32,
    N: Fn(u32) -> u16,
    G: Fn(u16, u16, u16) -> u16,
    W: Fn(u16) -> u32,
>(
    bufa: &CpuTensorBuf<'_>,
    bufb: &CpuTensorBuf<'_>,
    bufc: &mut CpuTensorBuf<'_>,
    strider1: &TensorStrider,
    strider2: &TensorStrider,
    step: &F,
    narrow: &N,
    zero: u16,
    step16: &G,
    widen: &W,
)
    requires
        batch_matmul_accepts(bufa, bufb, old(bufc), strider1, strider2),
        total3(*step),
        total3(*step16),
        forall|x: u32| call_requires(*narrow, (x,)),
        forall|t: u16| call_requires(*widen, (t,)),
    ensures
        final(bufc).spec_dtype() == GGMLType::F32,
        final(bufc).spec_is_owned(),
        final(bufc).spec_len() == old(bufc).spec_len(),
        bufb.spec_dtype() == GGMLType::F32 ==> forall|p: int|
            0 <= p < batch_out_len(*strider1, *strider2) ==> mac_fold(
                *step,
                old(bufc).spec_f32()[p],
                a_row(bufa.spec_f32(), *strider1, *strider2, p),
                b_col(bufb.spec_f32(), *strider1, *strider2, p),
                #[trigger] final(bufc).spec_f32()[p],
            ),
        bufb.spec_dtype() == GGMLType::F16 ==> exists|a16: Seq<u16>|
            {
                &&& #[trigger] a16.len() == bufa.spec_len()
                &&& forall|i: int|
                    0 <= i < a16.len() ==> call_ensures(
                        *narrow,
                        (bufa.spec_f32()[i],),
                        #[trigger] a16[i],
                    )
                &&& forall|p: int|
                    0 <= p < batch_out_len(*strider1, *strider2) ==> widened_entry(
                        *step16,
                        *widen,
                        zero,
                        a16,
                        bufb.spec_f16(),
                        *strider1,
                        *strider2,
                        p,
                        #[trigger] final(bufc).spec_f32()[p],
                    )
            },
        forall|p: int|
            batch_out_len(*strider1, *strider2) <= p < old(bufc).spec_len()
                ==> #[trigger] final(bufc).spec_f32()[p] == old(bufc).spec_f32()[p],
{
    match bufb {
        CpuTensorBuf::F32(b) => batch_matmul_naive_f32(
            bufa.as_f32_ref(),
            b.as_slice(),
            bufc.as_f32_mut(),
            strider1,
            strider2,
            step,
        ),
        CpuTensorBuf::F16(b) => {
            let a16 = quantize_f32_f16(bufa.as_f32_ref(), narrow);
            batch_matmul_simd_f16(
                a16.as_slice(),
                b.as_slice(),
                bufc.as_f32_mut(),
                strider1,
                strider2,
                zero,
                step16,
                widen,
            );
            proof {
                assert(a16@.len() == bufa.spec_len());
            }
        },
        _ => unreached(),
    }
}


/// Broadcast over the batch axis: output batches that differ by a multiple
/// of `b_batch` read the same batch of `B`.
///
/// With `a_batch = b_batch * k`, the output position `p` and the position
/// `j` groups of `b_batch` batches further on lie in the same row and
/// column and read the same column of `B`. So the product is the
/// concatenation, along the batch axis, of the `k` products of one group of
/// `b_batch` batches of `A` with `B`.
pub proof fn lemma_batch_broadcast<R>(
    bufb: Seq<R>,
    s1: TensorStrider,
    s2: TensorStrider,
    p: int,
    j: int,
)
    requires
        batch_operands_fit(s1, s2),
        0 <= p,
        0 <= j,
    ensures
        ({
            let group = s2.spec_shape()[0] * (s1.spec_shape()[1] * s2.spec_shape()[2]);
            &&& batch_of(s1, s2, p + j * group) == batch_of(s1, s2, p) + j * s2.spec_shape()[0]
            &&& row_of(s1, s2, p + j * group) == row_of(s1, s2, p)
            &&& col_of(s2, p + j * group) == col_of(s2, p)
            &&& b_col(bufb, s1, s2, p + j * group) == b_col(bufb, s1, s2, p)
        }),
{
    let b = s2.spec_shape()[0] as int;
    let m = s1.spec_shape()[1] as int;
    let n = s2.spec_shape()[2] as int;
    let group = b * (m * n);
    let p2 = p + j * group;
    assert(m > 0 && n > 0 && b > 0);
    // columns
    let q = p / n;
    let c = p % n;
    vstd::arithmetic::div_mod::lemma_fundamental_div_mod(p, n);
    assert(p2 == (q + j * b * m) * n + c) by (nonlinear_arith)
        requires
            p2 == p + j * (b * (m * n)),
            p == n * q + c,
    ;
    vstd::arithmetic::div_mod::lemma_fundamental_div_mod_converse(p2, n, q + j * b * m, c);
    // rows and batches
    let q2 = q + j * b * m;
    let bi = q / m;
    let mi = q % m;
    vstd::arithmetic::div_mod::lemma_fundamental_div_mod(q, m);
    assert(q2 == (bi + j * b) * m + mi) by (nonlinear_arith)
        requires
            q2 == q + j * b * m,
            q == m * bi + mi,
    ;
    vstd::arithmetic::div_mod::lemma_fundamental_div_mod_converse(q2, m, bi + j * b, mi);
    // batch of B
    let bb = bi % b;
    let bq = bi / b;
    vstd::arithmetic::div_mod::lemma_fundamental_div_mod(bi, b);
    assert(bi + j * b == (bq + j) * b + bb) by (nonlinear_arith)
        requires
            bi == b * bq + bb,
    ;
    vstd::arithmetic::div_mod::lemma_fundamental_div_mod_converse(bi + j * b, b, bq + j, bb);
    assert(b_col_start(s1, s2, p2) == b_col_start(s1, s2, p));
}

} // verus!
