//! Block-quantized regions of any of the four block formats.
use crate::accumulate::{lemma_mac_fold_push, mac_fold, total3};
use crate::backends::cpu::buf::buf_q8_0::{
    as_signed, chunk_of, le16, quant_at, scale_at, signed_as_byte,
};
use crate::gguf::GGMLType;
use crate::tensor::cpu::buf::CpuTensorBuf;
use vstd::prelude::*;

verus! {

/// Where block `block` of a region of format `t` starts.
pub open spec fn block_start(t: GGMLType, block: int) -> int {
    t.spec_block_bytes() * block
}

/// Header word `w` of block `block`: two bytes, low byte first.
pub open spec fn header_word(raw: Seq<u8>, t: GGMLType, block: int, w: int) -> u16 {
    le16(raw[block_start(t, block) + 2 * w], raw[block_start(t, block) + 2 * w + 1])
}

/// The scale of block `block`: its first header word.
pub open spec fn scale_word(raw: Seq<u8>, t: GGMLType, block: int) -> u16 {
    header_word(raw, t, block, 0)
}

/// The second header word of block `block` (the sum of `Q8_1`, the minimum
/// of `Q4_1`), or zero for a format that has none.
pub open spec fn aux_word(raw: Seq<u8>, t: GGMLType, block: int) -> u16 {
    if t.spec_header_words() == 2 {
        header_word(raw, t, block, 1)
    } else {
        0
    }
}

/// One half of a byte.
pub open spec fn nibble(b: u8, high: bool) -> int {
    if high {
        b as int / 16
    } else {
        b as int % 16
    }
}

/// The integer stored for element `pos`.
///
/// In the eight-bit formats this is byte `pos % 32` of the block's quants,
/// read as a signed number. In the four-bit formats the low halves of the
/// 16 quant bytes hold elements 0 to 15 of the block and the high halves
/// elements 16 to 31; `Q4_0` stores the quant plus eight, `Q4_1` stores it
/// as it is.
pub open spec fn quant_value(raw: Seq<u8>, t: GGMLType, pos: int) -> int {
    let j = pos % 32;
    let base = block_start(t, pos / 32) + 2 * t.spec_header_words();
    if t == GGMLType::Q4_0 {
        nibble(raw[base + j % 16], j >= 16) - 8
    } else if t == GGMLType::Q4_1 {
        nibble(raw[base + j % 16], j >= 16)
    } else {
        as_signed(raw[base + j]) as int
    }
}

/// Exact integer dot product of the first `n` quants of two blocks.
pub open spec fn block_dot_upto(
    a: Seq<u8>,
    ta: GGMLType,
    a_block: int,
    b: Seq<u8>,
    tb: GGMLType,
    b_block: int,
    n: int,
) -> int
    decreases n,
{
    if n <= 0 {
        0
    } else {
        block_dot_upto(a, ta, a_block, b, tb, b_block, n - 1) + quant_value(
            a,
            ta,
            32 * a_block + n - 1,
        ) * quant_value(b, tb, 32 * b_block + n - 1)
    }
}

/// Exact integer dot product of two blocks.
pub open spec fn block_dot(
    a: Seq<u8>,
    ta: GGMLType,
    a_block: int,
    b: Seq<u8>,
    tb: GGMLType,
    b_block: int,
) -> int {
    block_dot_upto(a, ta, a_block, b, tb, b_block, 32)
}

/// The general reader agrees with the reader of `Q8_0` regions: both find
/// the same scale and the same quant for every element.
pub proof fn lemma_q8_0_readers_agree(raw: Seq<u8>, pos: int)
    requires
        0 <= pos,
    ensures
        scale_word(raw, GGMLType::Q8_0, pos / 32) == scale_at(raw, pos),
        quant_value(raw, GGMLType::Q8_0, pos) == quant_at(raw, pos),
        aux_word(raw, GGMLType::Q8_0, pos / 32) == 0,
{
}

/// Every stored integer is a small number.
pub proof fn lemma_quant_range(raw: Seq<u8>, t: GGMLType, pos: int)
    ensures
        -128 <= quant_value(raw, t, pos) <= 127,
        t == GGMLType::Q4_0 ==> -8 <= quant_value(raw, t, pos) <= 7,
        t == GGMLType::Q4_1 ==> 0 <= quant_value(raw, t, pos) <= 15,
{
}

/// A region of packed blocks of one block format, read in place.
#[derive(Debug)]
pub struct QuantBuf<'a> {
    raw: CpuTensorBuf<'a, u8>,
    num_blocks: usize,
    dtype: GGMLType,
}

impl<'a> QuantBuf<'a> {
    /// The packed bytes.
    pub closed spec fn spec_raw(&self) -> Seq<u8> {
        self.raw@
    }

    /// The element format.
    pub closed spec fn spec_dtype(&self) -> GGMLType {
        self.dtype
    }

    /// Whether the storage belongs to the value and may be written.
    pub closed spec fn spec_is_owned(&self) -> bool {
        self.raw.spec_is_owned()
    }

    /// The recorded number of blocks is the one the region holds.
    pub closed spec fn counted(&self) -> bool {
        self.num_blocks * self.dtype.spec_block_bytes() == self.raw@.len()
    }

    /// The format is a block format and the region is a whole number of its
    /// blocks.
    pub open spec fn wf(&self) -> bool {
        &&& self.counted()
        &&& self.spec_dtype().spec_is_quantized()
        &&& self.spec_raw().len() % self.spec_dtype().spec_block_bytes() == 0
        &&& self.spec_len() <= usize::MAX
    }

    /// Number of blocks.
    pub open spec fn spec_num_blocks(&self) -> nat {
        self.spec_raw().len() / self.spec_dtype().spec_block_bytes()
    }

    /// Number of elements: 32 per block.
    pub open spec fn spec_len(&self) -> nat {
        self.spec_num_blocks() * 32
    }

    /// Reads a borrowed region as blocks of format `dtype`, without copying.
    ///
    /// The region has to be a whole number of blocks, and the number of
    /// elements it holds a machine integer.
    pub fn from_bytes(buf: &'a [u8], dtype: GGMLType) -> (r: Self)
        requires
            dtype.spec_is_quantized(),
            buf@.len() % dtype.spec_block_bytes() == 0,
            (buf@.len() / dtype.spec_block_bytes()) * 32 <= usize::MAX,
        ensures
            r.wf(),
            r.spec_raw() == buf@,
            r.spec_dtype() == dtype,
            !r.spec_is_owned(),
            r.spec_len() == (buf@.len() / dtype.spec_block_bytes()) * 32,
    {
        let num_blocks = buf.len() / dtype.block_bytes();
        QuantBuf { raw: CpuTensorBuf::from_slice(buf), num_blocks, dtype }
    }

    /// Takes ownership of a packed region of format `dtype`.
    pub fn from_vec(buf: Vec<u8>, dtype: GGMLType) -> (r: Self)
        requires
            dtype.spec_is_quantized(),
            buf@.len() % dtype.spec_block_bytes() == 0,
            (buf@.len() / dtype.spec_block_bytes()) * 32 <= usize::MAX,
        ensures
            r.wf(),
            r.spec_raw() == buf@,
            r.spec_dtype() == dtype,
            r.spec_is_owned(),
    {
        let num_blocks = buf.len() / dtype.block_bytes();
        QuantBuf { raw: CpuTensorBuf::from_vec(buf), num_blocks, dtype }
    }

    /// The element format.
    pub fn dtype(&self) -> (t: GGMLType)
        ensures
            t == self.spec_dtype(),
    {
        self.dtype
    }

    /// The packed bytes.
    pub fn raw(&self) -> (s: &[u8])
        ensures
            s@ == self.spec_raw(),
    {
        self.raw.iter()
    }

    /// Whether the storage belongs to the value and may be written.
    pub fn is_owned(&self) -> (r: bool)
        ensures
            r == self.spec_is_owned(),
    {
        self.raw.is_owned()
    }

    /// Number of blocks.
    pub fn num_blocks(&self) -> (n: usize)
        requires
            self.wf(),
        ensures
            n == self.spec_num_blocks(),
    {
        proof {
            self.lemma_counted();
        }
        self.num_blocks
    }

    /// Number of elements.
    pub fn len(&self) -> (n: usize)
        requires
            self.wf(),
        ensures
            n == self.spec_len(),
    {
        proof {
            self.lemma_counted();
        }
        self.num_blocks * 32
    }

    proof fn lemma_counted(&self)
        requires
            self.wf(),
        ensures
            self.num_blocks == self.spec_num_blocks(),
            self.num_blocks * self.dtype.spec_block_bytes() == self.raw@.len(),
    {
        let b = self.dtype.spec_block_bytes() as int;
        let n = self.num_blocks as int;
        vstd::arithmetic::div_mod::lemma_fundamental_div_mod_converse(n * b, b, n, 0);
    }

    /// Header word `w` of block `block`.
    pub fn header(&self, block: usize, w: usize) -> (h: u16)
        requires
            self.wf(),
            block < self.spec_num_blocks(),
            w < self.spec_dtype().spec_header_words(),
        ensures
            h == header_word(self.spec_raw(), self.spec_dtype(), block as int, w as int),
    {
        let data = self.raw.iter();
        let len = data.len();
        let size = self.dtype.block_bytes();
        proof {
            self.lemma_counted();
            lemma_block_inside(size as int, block as int, self.num_blocks as int);
        }
        let base = size * block + 2 * w;
        data[base] as u16 + 256 * (data[base + 1] as u16)
    }

    /// The scale of block `block`.
    pub fn scale(&self, block: usize) -> (h: u16)
        requires
            self.wf(),
            block < self.spec_num_blocks(),
        ensures
            h == scale_word(self.spec_raw(), self.spec_dtype(), block as int),
    {
        self.header(block, 0)
    }

    /// The second header word of block `block`, or zero where the format has
    /// none.
    pub fn aux(&self, block: usize) -> (h: u16)
        requires
            self.wf(),
            block < self.spec_num_blocks(),
        ensures
            h == aux_word(self.spec_raw(), self.spec_dtype(), block as int),
    {
        if self.dtype.header_words() == 2 {
            self.header(block, 1)
        } else {
            0
        }
    }

    /// The integer stored for element `pos`.
    pub fn quant(&self, pos: usize) -> (q: i8)
        requires
            self.wf(),
            pos < self.spec_len(),
        ensures
            q == quant_value(self.spec_raw(), self.spec_dtype(), pos as int),
    {
        let data = self.raw.iter();
        let len = data.len();
        let size = self.dtype.block_bytes();
        let block = pos / 32;
        let j = pos % 32;
        proof {
            self.lemma_counted();
            lemma_block_inside(size as int, block as int, self.num_blocks as int);
        }
        let base = size * block + 2 * self.dtype.header_words();
        match self.dtype {
            GGMLType::Q4_0 => {
                let b = data[base + j % 16];
                let n = if j >= 16 {
                    b / 16
                } else {
                    b % 16
                };
                n as i8 - 8
            },
            GGMLType::Q4_1 => {
                let b = data[base + j % 16];
                let n = if j >= 16 {
                    b / 16
                } else {
                    b % 16
                };
                n as i8
            },
            _ => {
                let b = data[base + j];
                if b < 128 {
                    b as i8
                } else {
                    (b as i16 - 256) as i8
                }
            },
        }
    }
}

/// A block that exists lies wholly inside the region.
pub proof fn lemma_block_inside(size: int, block: int, blocks: int)
    requires
        0 <= block < blocks,
        0 <= size,
    ensures
        0 <= size * block,
        size * block + size <= blocks * size,
{
    assert(size * block + size <= blocks * size && 0 <= size * block) by (nonlinear_arith)
        requires
            0 <= block,
            block + 1 <= blocks,
            0 <= size,
    ;
}


/// The two header words of block `a_block` of one region followed by those
/// of block `b_block` of another.
pub open spec fn pair_headers(
    a: Seq<u8>,
    ta: GGMLType,
    a_block: int,
    b: Seq<u8>,
    tb: GGMLType,
    b_block: int,
) -> (u16, u16, u16, u16) {
    (
        scale_word(a, ta, a_block),
        aux_word(a, ta, a_block),
        scale_word(b, tb, b_block),
        aux_word(b, tb, b_block),
    )
}

/// Integer dot products of `n` consecutive block pairs.
pub open spec fn run_dots(
    a: Seq<u8>,
    ta: GGMLType,
    a_block: int,
    b: Seq<u8>,
    tb: GGMLType,
    b_block: int,
    n: nat,
) -> Seq<i32> {
    Seq::new(n, |i: int| block_dot(a, ta, a_block + i, b, tb, b_block + i) as i32)
}

/// Header words of `n` consecutive block pairs.
pub open spec fn run_headers(
    a: Seq<u8>,
    ta: GGMLType,
    a_block: int,
    b: Seq<u8>,
    tb: GGMLType,
    b_block: int,
    n: nat,
) -> Seq<(u16, u16, u16, u16)> {
    Seq::new(n, |i: int| pair_headers(a, ta, a_block + i, b, tb, b_block + i))
}

/// `out` is what `deq` makes of the integer and the scale stored for
/// element `pos`; in `Q4_1`, what `deq_min` makes of the integer, the scale
/// and the minimum.
pub open spec fn dequantized<D: Fn(i8, u16) -> u32, M: Fn(i8, u16, u16) -> u32>(
    deq: D,
    deq_min: M,
    raw: Seq<u8>,
    t: GGMLType,
    pos: int,
    out: u32,
) -> bool {
    if t == GGMLType::Q4_1 {
        call_ensures(
            deq_min,
            (
                quant_value(raw, t, pos) as i8,
                scale_word(raw, t, pos / 32),
                aux_word(raw, t, pos / 32),
            ),
            out,
        )
    } else {
        call_ensures(deq, (quant_value(raw, t, pos) as i8, scale_word(raw, t, pos / 32)), out)
    }
}

impl<'a> QuantBuf<'a> {
    /// Sum of the 32 products of the integers of one block of `self` and
    /// one block of `other`.
    ///
    /// No partial sum exceeds 2^19 in magnitude, so the same sum formed in
    /// single precision, in any order, is this very number.
    pub fn block_int_dot(&self, a_block: usize, other: &QuantBuf<'_>, b_block: usize) -> (s: i32)
        requires
            self.wf(),
            other.wf(),
            a_block < self.spec_num_blocks(),
            b_block < other.spec_num_blocks(),
        ensures
            s == block_dot(
                self.spec_raw(),
                self.spec_dtype(),
                a_block as int,
                other.spec_raw(),
                other.spec_dtype(),
                b_block as int,
            ),
    {
        let mut s: i32 = 0;
        let mut j: usize = 0;
        while j < 32
            invariant
                self.wf(),
                other.wf(),
                a_block < self.spec_num_blocks(),
                b_block < other.spec_num_blocks(),
                j <= 32,
                s == block_dot_upto(
                    self.spec_raw(),
                    self.spec_dtype(),
                    a_block as int,
                    other.spec_raw(),
                    other.spec_dtype(),
                    b_block as int,
                    j as int,
                ),
                -16384 * j <= s <= 16384 * j,
            decreases 32 - j,
        {
            let x = self.quant(32 * a_block + j) as i32;
            let y = other.quant(32 * b_block + j) as i32;
            assert(-16384 <= x * y <= 16384) by (nonlinear_arith)
                requires
                    -128 <= x <= 127,
                    -128 <= y <= 127,
            ;
            s = s + x * y;
            j = j + 1;
        }
        s
    }

    /// Dot product of `len` elements of `self` from `a_offset` with `len`
    /// elements of `b` from `b_offset`, block by block.
    ///
    /// For each pair of blocks in turn, `scale` takes the sum so far, the
    /// exact integer dot product of the stored integers and the header
    /// words of both blocks. Offsets and length are whole blocks.
    pub fn vec_dot<F: Fn(u32, i32, (u16, u16, u16, u16)) -> u32>(
        &self,
        a_offset: usize,
        b: &QuantBuf<'_>,
        b_offset: usize,
        len: usize,
        zero: u32,
        scale: &F,
    ) -> (out: u32)
        requires
            self.wf(),
            b.wf(),
            total3(*scale),
            a_offset % 32 == 0,
            b_offset % 32 == 0,
            len % 32 == 0,
            a_offset + len <= self.spec_len(),
            b_offset + len <= b.spec_len(),
        ensures
            mac_fold(
                *scale,
                zero,
                run_dots(
                    self.spec_raw(),
                    self.spec_dtype(),
                    a_offset as int / 32,
                    b.spec_raw(),
                    b.spec_dtype(),
                    b_offset as int / 32,
                    (len / 32) as nat,
                ),
                run_headers(
                    self.spec_raw(),
                    self.spec_dtype(),
                    a_offset as int / 32,
                    b.spec_raw(),
                    b.spec_dtype(),
                    b_offset as int / 32,
                    (len / 32) as nat,
                ),
                out,
            ),
    {
        let n = len / 32;
        let a0 = a_offset / 32;
        let b0 = b_offset / 32;
        let ghost ra = self.spec_raw();
        let ghost rb = b.spec_raw();
        let ghost ta = self.spec_dtype();
        let ghost tb = b.spec_dtype();
        let mut sum = zero;
        let mut i: usize = 0;
        while i < n
            invariant
                self.wf(),
                b.wf(),
                total3(*scale),
                ra == self.spec_raw(),
                rb == b.spec_raw(),
                ta == self.spec_dtype(),
                tb == b.spec_dtype(),
                i <= n,
                a0 + n <= self.spec_num_blocks(),
                b0 + n <= b.spec_num_blocks(),
                mac_fold(
                    *scale,
                    zero,
                    run_dots(ra, ta, a0 as int, rb, tb, b0 as int, i as nat),
                    run_headers(ra, ta, a0 as int, rb, tb, b0 as int, i as nat),
                    sum,
                ),
            decreases n - i,
        {
            let dot = self.block_int_dot(a0 + i, b, b0 + i);
            let heads = (self.scale(a0 + i), self.aux(a0 + i), b.scale(b0 + i), b.aux(b0 + i));
            let ghost prev = sum;
            sum = scale(sum, dot, heads);
            proof {
                lemma_mac_fold_push(
                    *scale,
                    zero,
                    run_dots(ra, ta, a0 as int, rb, tb, b0 as int, i as nat),
                    run_headers(ra, ta, a0 as int, rb, tb, b0 as int, i as nat),
                    prev,
                    dot,
                    heads,
                    sum,
                );
                assert(run_dots(ra, ta, a0 as int, rb, tb, b0 as int, i as nat).push(dot)
                    =~= run_dots(ra, ta, a0 as int, rb, tb, b0 as int, (i + 1) as nat));
                assert(run_headers(ra, ta, a0 as int, rb, tb, b0 as int, i as nat).push(heads)
                    =~= run_headers(ra, ta, a0 as int, rb, tb, b0 as int, (i + 1) as nat));
            }
            i = i + 1;
        }
        sum
    }

    /// The values of the elements `start .. end`, in order.
    pub fn dequantize_range<D: Fn(i8, u16) -> u32, M: Fn(i8, u16, u16) -> u32>(
        &self,
        start: usize,
        end: usize,
        deq: &D,
        deq_min: &M,
    ) -> (out: Vec<u32>)
        requires
            self.wf(),
            start <= end <= self.spec_len(),
            forall|q: i8, d: u16| call_requires(*deq, (q, d)),
            forall|q: i8, d: u16, m: u16| call_requires(*deq_min, (q, d, m)),
        ensures
            out@.len() == end - start,
            forall|k: int|
                0 <= k < out@.len() ==> dequantized(
                    *deq,
                    *deq_min,
                    self.spec_raw(),
                    self.spec_dtype(),
                    start + k,
                    #[trigger] out@[k],
                ),
    {
        let mut out: Vec<u32> = Vec::new();
        let mut pos: usize = start;
        while pos < end
            invariant
                self.wf(),
                start <= pos <= end <= self.spec_len(),
                forall|q: i8, d: u16| call_requires(*deq, (q, d)),
                forall|q: i8, d: u16, m: u16| call_requires(*deq_min, (q, d, m)),
                out@.len() == pos - start,
                forall|k: int|
                    0 <= k < out@.len() ==> dequantized(
                        *deq,
                        *deq_min,
                        self.spec_raw(),
                        self.spec_dtype(),
                        start + k,
                        #[trigger] out@[k],
                    ),
            decreases end - pos,
        {
            let q = self.quant(pos);
            let d = self.scale(pos / 32);
            let v = match self.dtype {
                GGMLType::Q4_1 => deq_min(q, d, self.aux(pos / 32)),
                _ => deq(q, d),
            };
            proof {
                lemma_quant_range(self.spec_raw(), self.spec_dtype(), pos as int);
            }
            out.push(v);
            pos = pos + 1;
        }
        out
    }

    /// The values of all elements from `start` on, in order.
    pub fn dequantize<D: Fn(i8, u16) -> u32, M: Fn(i8, u16, u16) -> u32>(
        &self,
        start: usize,
        deq: &D,
        deq_min: &M,
    ) -> (out: Vec<u32>)
        requires
            self.wf(),
            forall|q: i8, d: u16| call_requires(*deq, (q, d)),
            forall|q: i8, d: u16, m: u16| call_requires(*deq_min, (q, d, m)),
        ensures
            out@.len() == if start <= self.spec_len() {
                self.spec_len() - start
            } else {
                0
            },
            forall|k: int|
                0 <= k < out@.len() ==> dequantized(
                    *deq,
                    *deq_min,
                    self.spec_raw(),
                    self.spec_dtype(),
                    start + k,
                    #[trigger] out@[k],
                ),
    {
        let len = self.len();
        if start >= len {
            Vec::new()
        } else {
            self.dequantize_range(start, len, deq, deq_min)
        }
    }
}


/// The nearest integer to `q` that format `t` can store.
pub open spec fn on_grid(t: GGMLType, q: i8) -> int {
    if t == GGMLType::Q4_0 {
        if q < -8 {
            -8
        } else if q > 7 {
            7
        } else {
            q as int
        }
    } else if t == GGMLType::Q4_1 {
        if q < 0 {
            0
        } else if q > 15 {
            15
        } else {
            q as int
        }
    } else {
        q as int
    }
}

/// Storing loses nothing for an integer the format can store, and what is
/// stored can always be stored again unchanged.
pub proof fn lemma_grid_is_exact(t: GGMLType, q: i8)
    ensures
        -128 <= on_grid(t, q) <= 127,
        on_grid(t, on_grid(t, q) as i8) == on_grid(t, q),
        t == GGMLType::Q4_0 && -8 <= q <= 7 ==> on_grid(t, q) == q,
        t == GGMLType::Q4_1 && 0 <= q <= 15 ==> on_grid(t, q) == q,
        !t.spec_is_packed() ==> on_grid(t, q) == q,
{
}

/// `stored` is the storable integer nearest to a value that `quant` can
/// return for the scalar `x` under the header words `d` and `aux`.
pub open spec fn quant_stored<Q: Fn(u32, u16, u16, GGMLType) -> i8>(
    quant: Q,
    x: u32,
    d: u16,
    aux: u16,
    t: GGMLType,
    stored: int,
) -> bool {
    exists|q: i8| #[trigger] call_ensures(quant, (x, d, aux, t), q) && stored == on_grid(t, q)
}

/// Block `c` of `raw` encodes chunk `c` of `data` under the second header
/// word `aux`: its scale and `aux` are what `header_of` returns for the
/// chunk, `aux` is stored where the format has room for it, and every
/// stored integer comes from `quant`.
pub open spec fn block_encoded_with<
    H: Fn(&[u32], GGMLType) -> (u16, u16),
    Q: Fn(u32, u16, u16, GGMLType) -> i8,
>(header_of: H, quant: Q, data: Seq<u32>, raw: Seq<u8>, t: GGMLType, c: int, aux: u16) -> bool {
    &&& forall|chunk: &[u32]|
        chunk@ == chunk_of(data, c) ==> #[trigger] call_ensures(
            header_of,
            (chunk, t),
            (scale_word(raw, t, c), aux),
        )
    &&& t.spec_header_words() == 2 ==> aux_word(raw, t, c) == aux
    &&& forall|j: int|
        0 <= j < 32 ==> quant_stored(
            quant,
            data[32 * c + j],
            scale_word(raw, t, c),
            aux,
            t,
            #[trigger] quant_value(raw, t, 32 * c + j),
        )
}

/// Block `c` of `raw` encodes chunk `c` of `data`.
pub open spec fn block_encoded<
    H: Fn(&[u32], GGMLType) -> (u16, u16),
    Q: Fn(u32, u16, u16, GGMLType) -> i8,
>(header_of: H, quant: Q, data: Seq<u32>, raw: Seq<u8>, t: GGMLType, c: int) -> bool {
    exists|aux: u16| #[trigger] block_encoded_with(header_of, quant, data, raw, t, c, aux)
}

/// What a cell of the staging area of a block stands for.
spec fn cell_value(t: GGMLType, cell: u8) -> int {
    if t == GGMLType::Q4_0 {
        cell - 8
    } else if t == GGMLType::Q4_1 {
        cell as int
    } else {
        as_signed(cell) as int
    }
}

/// The cell that stands for the storable integer nearest to `q`.
fn grid_cell(t: GGMLType, q: i8) -> (cell: u8)
    ensures
        cell_value(t, cell) == on_grid(t, q),
        t.spec_is_packed() ==> cell < 16,
{
    match t {
        GGMLType::Q4_0 => {
            if q < -8 {
                0
            } else if q > 7 {
                15
            } else {
                (q + 8) as u8
            }
        },
        GGMLType::Q4_1 => {
            if q < 0 {
                0
            } else if q > 15 {
                15
            } else {
                q as u8
            }
        },
        _ => signed_as_byte(q),
    }
}

/// What a region stores in a block depends on the bytes of that block
/// alone.
pub proof fn lemma_block_is_local(raw1: Seq<u8>, raw2: Seq<u8>, t: GGMLType, c: int)
    requires
        t.spec_is_quantized(),
        0 <= c,
        block_start(t, c + 1) <= raw1.len() <= raw2.len(),
        forall|i: int| 0 <= i < block_start(t, c + 1) ==> raw1[i] == raw2[i],
    ensures
        scale_word(raw1, t, c) == scale_word(raw2, t, c),
        aux_word(raw1, t, c) == aux_word(raw2, t, c),
        forall|j: int|
            #![trigger quant_value(raw1, t, 32 * c + j)]
            #![trigger quant_value(raw2, t, 32 * c + j)]
            0 <= j < 32 ==> quant_value(raw1, t, 32 * c + j) == quant_value(raw2, t, 32 * c + j),
{
    let size = t.spec_block_bytes() as int;
    assert(size * (c + 1) == size * c + size) by (nonlinear_arith);
    assert(0 <= size * c) by (nonlinear_arith)
        requires
            0 <= c,
            0 <= size,
    ;
    crate::gguf::lemma_block_bytes(t);
    assert forall|j: int| 0 <= j < 32 implies #[trigger] quant_value(raw1, t, 32 * c + j)
        == quant_value(raw2, t, 32 * c + j) by {
        vstd::arithmetic::div_mod::lemma_fundamental_div_mod_converse(32 * c + j, 32, c, j);
    }
}


/// The bytes of one block: the header words, low byte first, then the
/// quants the cells stand for.
fn block_image(t: GGMLType, d: u16, aux: u16, cells: &[u8; 32]) -> (blk: Vec<u8>)
    requires
        t.spec_is_quantized(),
        t.spec_is_packed() ==> forall|j: int| 0 <= j < 32 ==> cells@[j] < 16,
    ensures
        blk@.len() == t.spec_block_bytes(),
        scale_word(blk@, t, 0) == d,
        t.spec_header_words() == 2 ==> aux_word(blk@, t, 0) == aux,
        forall|j: int|
            0 <= j < 32 ==> #[trigger] quant_value(blk@, t, j) == cell_value(t, cells@[j]),
{
    proof {
        crate::gguf::lemma_block_bytes(t);
    }
    let mut blk: Vec<u8> = Vec::new();
    blk.push((d % 256) as u8);
    blk.push((d / 256) as u8);
    if t.header_words() == 2 {
        blk.push((aux % 256) as u8);
        blk.push((aux / 256) as u8);
    }
    let body = blk.len();
    let ghost head = blk@;
    if t.is_packed() {
        let mut k: usize = 0;
        while k < 16
            invariant
                k <= 16,
                forall|j: int| 0 <= j < 32 ==> cells@[j] < 16,
                head.len() == body,
                blk@.len() == body + k,
                forall|p: int| 0 <= p < body ==> #[trigger] blk@[p] == head[p],
                forall|p: int|
                    body <= p < body + k ==> #[trigger] blk@[p] == cells@[p - body] + 16 * cells@[p
                        - body + 16],
            decreases 16 - k,
        {
            let lo = cells[k];
            let hi = cells[k + 16];
            blk.push(lo + 16 * hi);
            k = k + 1;
        }
    } else {
        let mut k: usize = 0;
        while k < 32
            invariant
                k <= 32,
                head.len() == body,
                blk@.len() == body + k,
                forall|p: int| 0 <= p < body ==> #[trigger] blk@[p] == head[p],
                forall|p: int| body <= p < body + k ==> #[trigger] blk@[p] == cells@[p - body],
            decreases 32 - k,
        {
            blk.push(cells[k]);
            k = k + 1;
        }
    }
    proof {
        assert(body == 2 * t.spec_header_words());
        assert(blk@[0] == head[0] && blk@[1] == head[1]);
        if t.spec_header_words() == 2 {
            assert(blk@[2] == head[2] && blk@[3] == head[3]);
        }
        assert(block_start(t, 0) == 0);
        assert forall|j: int| 0 <= j < 32 implies #[trigger] quant_value(blk@, t, j)
            == cell_value(t, cells@[j]) by {
            assert(j / 32 == 0 && j % 32 == j);
            if t.spec_is_packed() {
                let i = j % 16;
                let lo = cells@[i];
                let hi = cells@[i + 16];
                assert(blk@[body + i] == lo + 16 * hi);
                vstd::arithmetic::div_mod::lemma_fundamental_div_mod_converse(
                    lo + 16 * hi,
                    16,
                    hi as int,
                    lo as int,
                );
                assert(nibble(blk@[body + i], false) == lo);
                assert(nibble(blk@[body + i], true) == hi);
                if j >= 16 {
                    assert(i + 16 == j);
                } else {
                    assert(i == j);
                }
            } else {
                assert(blk@[body + j] == cells@[j]);
            }
        }
    }
    blk
}

/// A block appended to a region of `c` blocks stores there what it stores
/// on its own.
proof fn lemma_block_appended(raw: Seq<u8>, blk: Seq<u8>, t: GGMLType, c: int)
    requires
        t.spec_is_quantized(),
        0 <= c,
        raw.len() == block_start(t, c),
        blk.len() == t.spec_block_bytes(),
    ensures
        (raw + blk).len() == block_start(t, c + 1),
        scale_word(raw + blk, t, c) == scale_word(blk, t, 0),
        aux_word(raw + blk, t, c) == aux_word(blk, t, 0),
        forall|j: int|
            0 <= j < 32 ==> #[trigger] quant_value(raw + blk, t, 32 * c + j) == quant_value(
                blk,
                t,
                j,
            ),
{
    let size = t.spec_block_bytes() as int;
    crate::gguf::lemma_block_bytes(t);
    assert(size * (c + 1) == size * c + size) by (nonlinear_arith);
    assert(size * 0 == 0);
    let all = raw + blk;
    assert(forall|i: int| 0 <= i < size ==> all[size * c + i] == blk[i]);
    assert forall|j: int| 0 <= j < 32 implies #[trigger] quant_value(all, t, 32 * c + j)
        == quant_value(blk, t, j) by {
        vstd::arithmetic::div_mod::lemma_fundamental_div_mod_converse(32 * c + j, 32, c, j);
        vstd::arithmetic::div_mod::lemma_fundamental_div_mod_converse(j, 32, 0, j);
    }
}

impl<'a> QuantBuf<'a> {
    /// Quantizes a run of scalars into format `dtype`, 32 to a block.
    ///
    /// The header words of a block are what `header_of` returns for its
    /// chunk; the second one is stored only where the format has room for
    /// it. The integer stored for an element is the storable integer
    /// nearest to what `quant` returns for the element and the header
    /// words.
    pub fn quantize<H: Fn(&[u32], GGMLType) -> (u16, u16), Q: Fn(u32, u16, u16, GGMLType) -> i8>(
        data: &[u32],
        dtype: GGMLType,
        header_of: &H,
        quant: &Q,
    ) -> (r: QuantBuf<'a>)
        requires
            dtype.spec_is_quantized(),
            data@.len() % 32 == 0,
            (data@.len() / 32) * dtype.spec_block_bytes() <= usize::MAX,
            forall|chunk: &[u32], t: GGMLType|
                chunk@.len() == 32 ==> call_requires(*header_of, (chunk, t)),
            forall|x: u32, d: u16, aux: u16, t: GGMLType| call_requires(*quant, (x, d, aux, t)),
        ensures
            r.wf(),
            r.spec_is_owned(),
            r.spec_dtype() == dtype,
            r.spec_len() == data@.len(),
            forall|c: int|
                0 <= c < data@.len() / 32 ==> #[trigger] block_encoded(
                    *header_of,
                    *quant,
                    data@,
                    r.spec_raw(),
                    dtype,
                    c,
                ),
    {
        let len = data.len();
        let n = len / 32;
        let mut raw: Vec<u8> = Vec::new();
        let mut c: usize = 0;
        while c < n
            invariant
                dtype.spec_is_quantized(),
                len == data@.len(),
                len % 32 == 0,
                n == len / 32,
                c <= n,
                raw@.len() == block_start(dtype, c as int),
                forall|chunk: &[u32], t: GGMLType|
                    chunk@.len() == 32 ==> call_requires(*header_of, (chunk, t)),
                forall|x: u32, d: u16, aux: u16, t: GGMLType|
                    call_requires(*quant, (x, d, aux, t)),
                forall|b: int|
                    0 <= b < c ==> #[trigger] block_encoded(
                        *header_of,
                        *quant,
                        data@,
                        raw@,
                        dtype,
                        b,
                    ),
            decreases n - c,
        {
            let base = 32 * c;
            let chunk = vstd::slice::slice_subrange(data, base, base + 32);
            let (d, aux) = header_of(chunk, dtype);
            let mut cells: [u8; 32] = [0u8; 32];
            let mut j: usize = 0;
            while j < 32
                invariant
                    j <= 32,
                    base == 32 * c,
                    base + 32 <= len,
                    len == data@.len(),
                    forall|x: u32, d: u16, aux: u16, t: GGMLType|
                        call_requires(*quant, (x, d, aux, t)),
                    dtype.spec_is_packed() ==> forall|i: int| 0 <= i < j ==> cells@[i] < 16,
                    forall|i: int|
                        0 <= i < j ==> quant_stored(
                            *quant,
                            data@[base + i],
                            d,
                            aux,
                            dtype,
                            cell_value(dtype, #[trigger] cells@[i]),
                        ),
                decreases 32 - j,
            {
                let q = quant(data[base + j], d, aux, dtype);
                let cell = grid_cell(dtype, q);
                cells[j] = cell;
                j = j + 1;
            }
            let ghost before = raw@;
            let blk = block_image(dtype, d, aux, &cells);
            raw.extend_from_slice(blk.as_slice());
            proof {
                lemma_block_appended(before, blk@, dtype, c as int);
                assert(raw@ == before + blk@);
                assert forall|b: int| 0 <= b < c + 1 implies #[trigger] block_encoded(
                    *header_of,
                    *quant,
                    data@,
                    raw@,
                    dtype,
                    b,
                ) by {
                    if b < c {
                        let size = dtype.spec_block_bytes() as int;
                        assert(size * (b + 1) <= size * c) by (nonlinear_arith)
                            requires
                                b + 1 <= c,
                                size >= 0,
                        ;
                        assert(before.len() == size * c);
                        lemma_block_is_local(before, raw@, dtype, b);
                        assert(block_encoded(*header_of, *quant, data@, before, dtype, b));
                        let w = choose|w: u16| #[trigger]
                            block_encoded_with(*header_of, *quant, data@, before, dtype, b, w);
                        assert(block_encoded_with(*header_of, *quant, data@, raw@, dtype, b, w));
                    } else {
                        assert forall|other: &[u32]|
                            other@ == chunk_of(data@, c as int) implies #[trigger] call_ensures(
                            *header_of,
                            (other, dtype),
                            (scale_word(raw@, dtype, c as int), aux),
                        ) by {
                            vstd::slice::axiom_slice_ext_equal(other, chunk);
                            assert(other@ =~= chunk@);
                        }
                        assert(block_encoded_with(
                            *header_of,
                            *quant,
                            data@,
                            raw@,
                            dtype,
                            c as int,
                            aux,
                        ));
                    }
                }
                let size = dtype.spec_block_bytes() as int;
                assert(size * (c + 1) == size * c + size) by (nonlinear_arith);
            }
            c = c + 1;
        }
        proof {
            let size = dtype.spec_block_bytes() as int;
            assert(size * n == n * size) by (nonlinear_arith);
            vstd::arithmetic::div_mod::lemma_fundamental_div_mod_converse(
                n * size,
                size,
                n as int,
                0,
            );
        }
        QuantBuf { raw: CpuTensorBuf::from_vec(raw), num_blocks: n, dtype }
    }
}


impl<'a> Clone for QuantBuf<'a> {
    fn clone(&self) -> (r: Self)
        ensures
            r.spec_raw() == self.spec_raw(),
            r.spec_dtype() == self.spec_dtype(),
            r.spec_is_owned() == self.spec_is_owned(),
            self.wf() ==> r.wf(),
    {
        QuantBuf { raw: self.raw.clone(), num_blocks: self.num_blocks, dtype: self.dtype }
    }
}

/// A region of `Q8_1` blocks.
#[allow(non_camel_case_types)]
pub type QuantBufQ8_1<'a> = QuantBuf<'a>;

/// A region of `Q4_0` blocks.
#[allow(non_camel_case_types)]
pub type QuantBufQ4_0<'a> = QuantBuf<'a>;

/// A region of `Q4_1` blocks.
#[allow(non_camel_case_types)]
pub type QuantBufQ4_1<'a> = QuantBuf<'a>;

} // verus!
