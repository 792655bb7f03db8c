use crate::accumulate::{
    lemma_len_fits, lemma_mac_fold_push, mac_fold, mac_strided, strided, total3,
};
use vstd::prelude::*;

verus! {

/// Bytes of one stored block: a two-byte scale and 32 one-byte quants.
pub const BLOCK_BYTES: usize = 34;

/// The 16-bit value whose little-endian bytes are `lo`, `hi`.
pub open spec fn le16(lo: u8, hi: u8) -> u16 {
    (lo + 256 * hi) as u16
}

/// The byte `b` read as a two's-complement number.
pub open spec fn as_signed(b: u8) -> i8 {
    if b < 128 {
        b as i8
    } else {
        (b - 256) as i8
    }
}

/// Scale bits of block `i` in a packed region.
pub open spec fn block_scale(raw: Seq<u8>, i: int) -> u16 {
    le16(raw[34 * i], raw[34 * i + 1])
}

/// Quant `j` of block `i` in a packed region.
pub open spec fn block_quant(raw: Seq<u8>, i: int, j: int) -> i8 {
    as_signed(raw[34 * i + 2 + j])
}

/// The 32 quants of block `i` in a packed region.
pub open spec fn block_quants(raw: Seq<u8>, i: int) -> Seq<i8> {
    Seq::new(32, |j: int| block_quant(raw, i, j))
}

/// Scale bits of the block that holds element `pos`.
pub open spec fn scale_at(raw: Seq<u8>, pos: int) -> u16 {
    block_scale(raw, pos / 32)
}

/// The quant stored for element `pos`.
pub open spec fn quant_at(raw: Seq<u8>, pos: int) -> i8 {
    block_quant(raw, pos / 32, pos % 32)
}

/// Exact integer dot product of two runs of quants.
pub open spec fn int_dot(a: Seq<i8>, b: Seq<i8>) -> int
    decreases a.len(),
{
    if a.len() == 0 {
        0
    } else {
        int_dot(a.drop_last(), b.drop_last()) + a.last() * b.last()
    }
}

/// The byte `b` read as a two's-complement number.
pub fn byte_as_signed(b: u8) -> (q: i8)
    ensures
        q == as_signed(b),
{
    if b < 128 {
        b as i8
    } else {
        (b as i16 - 256) as i8
    }
}

/// One block: the bit pattern of a half-precision scale and 32 signed quants.
#[allow(non_camel_case_types)]
#[derive(Debug, Clone, Copy)]
pub struct BlockQ8_0 {
    /// Bit pattern of the scale.
    pub d: u16,
    /// The quants.
    pub qs: [i8; 32],
}

impl BlockQ8_0 {
    pub const BLOCK_ELEMS: usize = 32;

    /// This block holds what block `i` of `raw` stores.
    pub open spec fn holds(&self, raw: Seq<u8>, i: int) -> bool {
        &&& self.d == block_scale(raw, i)
        &&& self.qs@ == block_quants(raw, i)
    }

    /// Block `i` of a packed region.
    pub fn read(data: &[u8], i: usize) -> (b: BlockQ8_0)
        requires
            34 * (i + 1) <= data@.len(),
        ensures
            b.holds(data@, i as int),
    {
        let len = data.len();
        let base = i * BLOCK_BYTES;
        let d: u16 = data[base] as u16 + 256 * (data[base + 1] as u16);
        let mut qs: [i8; 32] = [0i8; 32];
        let mut j: usize = 0;
        while j < 32
            invariant
                j <= 32,
                base == 34 * i,
                34 * (i + 1) <= data@.len(),
                len == data@.len(),
                forall|t: int| 0 <= t < j ==> qs@[t] == block_quant(data@, i as int, t),
            decreases 32 - j,
        {
            qs[j] = byte_as_signed(data[base + 2 + j]);
            j = j + 1;
        }
        assert(qs@ =~= block_quants(data@, i as int));
        BlockQ8_0 { d, qs }
    }

    /// The blocks stored in a packed region, in order.
    pub fn from_bytes(data: &[u8]) -> (blocks: Vec<BlockQ8_0>)
        requires
            data@.len() % 34 == 0,
        ensures
            blocks@.len() == data@.len() / 34,
            forall|i: int| 0 <= i < blocks@.len() ==> (#[trigger] blocks@[i]).holds(data@, i),
    {
        let n = data.len() / BLOCK_BYTES;
        let mut blocks: Vec<BlockQ8_0> = Vec::new();
        let mut i: usize = 0;
        while i < n
            invariant
                i <= n,
                n == data@.len() / 34,
                data@.len() % 34 == 0,
                blocks@.len() == i,
                forall|t: int| 0 <= t < i ==> (#[trigger] blocks@[t]).holds(data@, t),
            decreases n - i,
        {
            blocks.push(BlockQ8_0::read(data, i));
            i = i + 1;
        }
        blocks
    }
}


impl BlockQ8_0 {
    /// Writes the 32 values of the block to the front of `buf`: element `j`
    /// becomes what `deq` makes of quant `j` and the scale.
    pub fn dequantize<F: Fn(i8, u16) -> u32>(&self, buf: &mut [u32], deq: &F)
        requires
            old(buf)@.len() >= 32,
            forall|q: i8, d: u16| call_requires(*deq, (q, d)),
        ensures
            final(buf)@.len() == old(buf)@.len(),
            forall|j: int|
                0 <= j < 32 ==> call_ensures(*deq, (self.qs@[j], self.d), #[trigger] final(buf)@[j]),
            forall|j: int| 32 <= j < old(buf)@.len() ==> #[trigger] final(buf)@[j] == old(buf)@[j],
    {
        let d = self.d;
        let mut i: usize = 0;
        while i < 32
            invariant
                i <= 32,
                d == self.d,
                buf@.len() == old(buf)@.len(),
                buf@.len() >= 32,
                forall|q: i8, d: u16| call_requires(*deq, (q, d)),
                forall|j: int|
                    0 <= j < i ==> call_ensures(*deq, (self.qs@[j], self.d), #[trigger] buf@[j]),
                forall|j: int| 32 <= j < buf@.len() ==> #[trigger] buf@[j] == old(buf)@[j],
            decreases 32 - i,
        {
            let q = self.qs[i];
            buf[i] = deq(q, d);
            i = i + 1;
        }
    }
}


/// The 32 values of chunk `c` of a run of scalars.
pub open spec fn chunk_of(data: Seq<u32>, c: int) -> Seq<u32> {
    data.subrange(32 * c, 32 * c + 32)
}

/// The byte that reads as `q` in two's complement.
pub fn signed_as_byte(q: i8) -> (b: u8)
    ensures
        as_signed(b) == q,
{
    if q >= 0 {
        q as u8
    } else {
        (q as i16 + 256) as u8
    }
}

impl BlockQ8_0 {
    /// Quantizes a run of scalars, 32 to a block.
    ///
    /// The scale of a block is what `scale_of` returns for its chunk; quant
    /// `j` is what `quant` returns for the chunk's value `j` and that scale.
    pub fn quantize<S: Fn(&[u32]) -> u16, Q: Fn(u32, u16) -> i8>(
        data: &[u32],
        scale_of: &S,
        quant: &Q,
    ) -> (blocks: Vec<BlockQ8_0>)
        requires
            data@.len() % 32 == 0,
            forall|chunk: &[u32]| chunk@.len() == 32 ==> call_requires(*scale_of, (chunk,)),
            forall|x: u32, d: u16| call_requires(*quant, (x, d)),
        ensures
            blocks@.len() == data@.len() / 32,
            forall|c: int, chunk: &[u32]|
                0 <= c < blocks@.len() && chunk@ == chunk_of(data@, c) ==> #[trigger] call_ensures(
                    *scale_of,
                    (chunk,),
                    blocks@[c].d,
                ),
            forall|c: int, j: int|
                0 <= c < blocks@.len() && 0 <= j < 32 ==> call_ensures(
                    *quant,
                    (data@[32 * c + j], blocks@[c].d),
                    #[trigger] blocks@[c].qs@[j],
                ),
    {
        let len = data.len();
        let n = len / 32;
        let mut blocks: Vec<BlockQ8_0> = Vec::new();
        let mut c: usize = 0;
        while c < n
            invariant
                c <= n,
                len == data@.len(),
                n == len / 32,
                len % 32 == 0,
                blocks@.len() == c,
                forall|chunk: &[u32]| chunk@.len() == 32 ==> call_requires(*scale_of, (chunk,)),
                forall|x: u32, d: u16| call_requires(*quant, (x, d)),
                forall|b: int, chunk: &[u32]|
                    0 <= b < c && chunk@ == chunk_of(data@, b) ==> #[trigger] call_ensures(
                        *scale_of,
                        (chunk,),
                        blocks@[b].d,
                    ),
                forall|b: int, j: int|
                    0 <= b < c && 0 <= j < 32 ==> call_ensures(
                        *quant,
                        (data@[32 * b + j], blocks@[b].d),
                        #[trigger] blocks@[b].qs@[j],
                    ),
            decreases n - c,
        {
            let base = 32 * c;
            let chunk = vstd::slice::slice_subrange(data, base, base + 32);
            let d = scale_of(chunk);
            let mut qs: [i8; 32] = [0i8; 32];
            let mut j: usize = 0;
            while j < 32
                invariant
                    j <= 32,
                    base == 32 * c,
                    base + 32 <= len,
                    len == data@.len(),
                    forall|x: u32, d: u16| call_requires(*quant, (x, d)),
                    forall|t: int|
                        0 <= t < j ==> call_ensures(*quant, (data@[base + t], d), #[trigger] qs@[t]),
                decreases 32 - j,
            {
                let x = data[base + j];
                let q = quant(x, d);
                qs[j] = q;
                j = j + 1;
            }
            let block = BlockQ8_0 { d, qs };
            blocks.push(block);
            proof {
                assert forall|b: int, other: &[u32]|
                    0 <= b < c + 1 && other@ == chunk_of(data@, b) implies #[trigger] call_ensures(
                    *scale_of,
                    (other,),
                    blocks@[b].d,
                ) by {
                    if b == c {
                        vstd::slice::axiom_slice_ext_equal(other, chunk);
                        assert(other@ =~= chunk@);
                    }
                }
            }
            c = c + 1;
        }
        blocks
    }

    /// The packed bytes of a run of blocks: per block the scale, low byte
    /// first, then the quants.
    pub fn to_bytes(blocks: &[BlockQ8_0]) -> (raw: Vec<u8>)
        requires
            34 * blocks@.len() <= usize::MAX,
        ensures
            raw@.len() == 34 * blocks@.len(),
            forall|i: int| 0 <= i < blocks@.len() ==> (#[trigger] blocks@[i]).holds(raw@, i),
    {
        let mut raw: Vec<u8> = Vec::new();
        let mut i: usize = 0;
        while i < blocks.len()
            invariant
                i <= blocks@.len(),
                raw@.len() == 34 * i,
                forall|t: int| 0 <= t < i ==> (#[trigger] blocks@[t]).holds(raw@, t),
            decreases blocks.len() - i,
        {
            let ghost before = raw@;
            let b = &blocks[i];
            raw.push((b.d % 256) as u8);
            raw.push((b.d / 256) as u8);
            let mut j: usize = 0;
            while j < 32
                invariant
                    j <= 32,
                    i < blocks@.len(),
                    *b == blocks@[i as int],
                    raw@.len() == 34 * i + 2 + j,
                    raw@.take(34 * i) == before,
                    le16(raw@[34 * i], raw@[34 * i + 1]) == b.d,
                    forall|t: int| 0 <= t < j ==> as_signed(raw@[34 * i + 2 + t]) == b.qs@[t],
                decreases 32 - j,
            {
                raw.push(signed_as_byte(b.qs[j]));
                j = j + 1;
            }
            proof {
                assert(blocks@[i as int].qs@ =~= block_quants(raw@, i as int));
                assert forall|t: int| 0 <= t < i implies (#[trigger] blocks@[t]).holds(raw@, t) by {
                    assert(blocks@[t].holds(before, t));
                    assert(forall|u: int| 0 <= u < 34 * i ==> raw@[u] == raw@.take(34 * i)[u]);
                    assert(block_quants(raw@, t) =~= block_quants(before, t));
                }
            }
            i = i + 1;
        }
        raw
    }
}


/// Position of the `k`-th stop of a walk that starts at `start` and
/// advances by `step`.
pub open spec fn hop(start: int, step: int, k: int) -> int {
    start + k * step
}

/// A region of packed blocks, read in place.
#[allow(non_camel_case_types)]
#[derive(Debug)]
pub struct QuantBufQ8_0<'a> {
    raw: crate::tensor::cpu::buf::CpuTensorBuf<'a, u8>,
    num_blocks: usize,
}

impl<'a> QuantBufQ8_0<'a> {
    /// The packed bytes.
    pub closed spec fn spec_raw(&self) -> Seq<u8> {
        self.raw@
    }

    /// Whether the storage belongs to the value and may be written.
    pub closed spec fn spec_is_owned(&self) -> bool {
        self.raw.spec_is_owned()
    }

    /// The recorded number of blocks is the one the region holds.
    pub closed spec fn counted(&self) -> bool {
        self.num_blocks * 34 == self.raw@.len()
    }

    /// The region is a whole number of blocks.
    pub open spec fn wf(&self) -> bool {
        self.counted() && self.spec_raw().len() % 34 == 0
    }

    /// Number of blocks.
    pub open spec fn spec_num_blocks(&self) -> nat {
        self.spec_raw().len() / 34
    }

    /// Number of elements: 32 per block.
    pub open spec fn spec_len(&self) -> nat {
        self.spec_num_blocks() * 32
    }

    /// Reads a borrowed region as blocks, without copying.
    pub fn from_bytes(buf: &'a [u8]) -> (r: Self)
        requires
            buf@.len() % 34 == 0,
        ensures
            r.wf(),
            r.spec_raw() == buf@,
            !r.spec_is_owned(),
            r.spec_len() == (buf@.len() / 34) * 32,
    {
        let num_blocks = buf.len() / BLOCK_BYTES;
        QuantBufQ8_0 { raw: crate::tensor::cpu::buf::CpuTensorBuf::from_slice(buf), num_blocks }
    }

    /// Takes ownership of a packed region.
    pub fn from_vec(buf: Vec<u8>) -> (r: Self)
        requires
            buf@.len() % 34 == 0,
        ensures
            r.wf(),
            r.spec_raw() == buf@,
            r.spec_is_owned(),
    {
        let num_blocks = buf.len() / BLOCK_BYTES;
        QuantBufQ8_0 { raw: crate::tensor::cpu::buf::CpuTensorBuf::from_vec(buf), num_blocks }
    }

    /// The packed bytes.
    pub fn raw(&self) -> (s: &[u8])
        ensures
            s@ == self.spec_raw(),
    {
        self.raw.iter()
    }

    /// Whether the storage belongs to the value and may be written.
    pub fn is_owned(&self) -> (r: bool)
        ensures
            r == self.spec_is_owned(),
    {
        self.raw.is_owned()
    }

    /// All blocks, decoded.
    pub fn blocks(&self) -> (blocks: Vec<BlockQ8_0>)
        requires
            self.wf(),
        ensures
            blocks@.len() == self.spec_num_blocks(),
            forall|i: int|
                0 <= i < blocks@.len() ==> (#[trigger] blocks@[i]).holds(self.spec_raw(), i),
    {
        BlockQ8_0::from_bytes(self.raw.iter())
    }

    /// The blocks that hold the elements from `start` up to `end`, both
    /// rounded down to a block boundary.
    pub fn blocks_range(&self, start: usize, end: usize) -> (blocks: Vec<BlockQ8_0>)
        requires
            self.wf(),
            start / 32 <= end / 32 <= self.spec_num_blocks(),
        ensures
            blocks@.len() == end / 32 - start / 32,
            forall|i: int|
                0 <= i < blocks@.len() ==> (#[trigger] blocks@[i]).holds(
                    self.spec_raw(),
                    start / 32 + i,
                ),
    {
        let first = start / 32;
        let last = end / 32;
        let data = self.raw.iter();
        let mut blocks: Vec<BlockQ8_0> = Vec::new();
        let mut i: usize = first;
        while i < last
            invariant
                first <= i <= last,
                first == start / 32,
                last <= data@.len() / 34,
                data@ == self.spec_raw(),
                blocks@.len() == i - first,
                forall|t: int|
                    0 <= t < blocks@.len() ==> (#[trigger] blocks@[t]).holds(data@, first + t),
            decreases last - i,
        {
            blocks.push(BlockQ8_0::read(data, i));
            i = i + 1;
        }
        blocks
    }

    /// Number of elements.
    pub fn len(&self) -> (n: usize)
        requires
            self.wf(),
        ensures
            n == self.spec_len(),
    {
        let raw = self.raw.iter();
        proof {
            lemma_len_fits(raw);
        }
        self.num_blocks * 32
    }

    /// A walk over the elements at `start`, `start + step`, ... below `end`.
    ///
    /// Every stop of the walk has to lie inside the buffer.
    pub fn iter_range<F: Fn(i8, u16) -> u32>(
        &'a self,
        start: usize,
        end: usize,
        step: usize,
        deq: F,
    ) -> (it: BlockBufIterQ8_0<'a, F>)
        requires
            self.wf(),
            forall|q: i8, d: u16| call_requires(deq, (q, d)),
            forall|k: int|
                0 <= k && #[trigger] hop(start as int, step as int, k) < end ==> hop(
                    start as int,
                    step as int,
                    k,
                ) < self.spec_len(),
        ensures
            it.wf(),
            it.spec_raw() == self.spec_raw(),
            it.spec_pos() == start,
            it.spec_end() == end,
            it.spec_step() == step,
            it.spec_deq() == deq,
    {
        BlockBufIterQ8_0 {
            buf: self,
            pos: start,
            end,
            step,
            current_f32_buf: [0u32; 32],
            current_block: usize::MAX,
            deq,
        }
    }

    /// A walk over all elements from `start` on.
    pub fn dequantize<F: Fn(i8, u16) -> u32>(&'a self, start: usize, deq: F) -> (it:
        BlockBufIterQ8_0<'a, F>)
        requires
            self.wf(),
            forall|q: i8, d: u16| call_requires(deq, (q, d)),
        ensures
            it.wf(),
            it.spec_raw() == self.spec_raw(),
            it.spec_pos() == start,
            it.spec_end() == self.spec_len(),
            it.spec_step() == 1,
            it.spec_deq() == deq,
    {
        let end = self.len();
        self.iter_range(start, end, 1, deq)
    }
}

/// A cursor over the values of a block buffer. It decodes one block at a
/// time and keeps the decoded values until the walk leaves the block.
pub struct BlockBufIterQ8_0<'a, F> {
    buf: &'a QuantBufQ8_0<'a>,
    current_f32_buf: [u32; 32],
    current_block: usize,
    pos: usize,
    end: usize,
    step: usize,
    deq: F,
}

impl<'a, F: Fn(i8, u16) -> u32> BlockBufIterQ8_0<'a, F> {
    /// The packed bytes the walk reads.
    pub closed spec fn spec_raw(&self) -> Seq<u8> {
        self.buf.spec_raw()
    }

    /// Position of the next element.
    pub closed spec fn spec_pos(&self) -> usize {
        self.pos
    }

    /// Position at which the walk ends.
    pub closed spec fn spec_end(&self) -> usize {
        self.end
    }

    /// Distance between two stops of the walk.
    pub closed spec fn spec_step(&self) -> usize {
        self.step
    }

    /// The function that turns a quant and a scale into a value.
    pub closed spec fn spec_deq(&self) -> F {
        self.deq
    }

    /// The walk stays inside the buffer and the decoded values on hand
    /// belong to the block they are kept for.
    pub closed spec fn wf(&self) -> bool {
        &&& self.buf.wf()
        &&& forall|q: i8, d: u16| call_requires(self.deq, (q, d))
        &&& forall|k: int|
            0 <= k && #[trigger] hop(self.pos as int, self.step as int, k) < self.end ==> hop(
                self.pos as int,
                self.step as int,
                k,
            ) < self.buf.spec_len()
        &&& self.current_block != usize::MAX ==> {
            &&& self.current_block < self.buf.spec_num_blocks()
            &&& forall|j: int|
                0 <= j < 32 ==> call_ensures(
                    self.deq,
                    (
                        block_quant(self.buf.spec_raw(), self.current_block as int, j),
                        block_scale(self.buf.spec_raw(), self.current_block as int),
                    ),
                    #[trigger] self.current_f32_buf@[j],
                )
        }
    }

    /// The next value of the walk, or `None` once the walk has reached its
    /// end. The position advances by the step and stops at the largest
    /// machine integer.
    pub fn next(&mut self) -> (r: Option<u32>)
        requires
            old(self).wf(),
        ensures
            final(self).wf(),
            final(self).spec_raw() == old(self).spec_raw(),
            final(self).spec_end() == old(self).spec_end(),
            final(self).spec_step() == old(self).spec_step(),
            final(self).spec_deq() == old(self).spec_deq(),
            old(self).spec_pos() >= old(self).spec_end() ==> r is None && final(self).spec_pos()
                == old(self).spec_pos(),
            old(self).spec_pos() < old(self).spec_end() ==> {
                &&& r is Some
                &&& call_ensures(
                    old(self).spec_deq(),
                    (
                        quant_at(old(self).spec_raw(), old(self).spec_pos() as int),
                        scale_at(old(self).spec_raw(), old(self).spec_pos() as int),
                    ),
                    r->0,
                )
                &&& final(self).spec_pos() == if old(self).spec_pos() + old(self).spec_step()
                    > usize::MAX {
                    usize::MAX
                } else {
                    (old(self).spec_pos() + old(self).spec_step()) as usize
                }
            },
    {
        if self.pos >= self.end {
            return None;
        }
        assert(hop(self.pos as int, self.step as int, 0) == self.pos);
        let block_idx = self.pos / 32;
        if block_idx != self.current_block {
            let block = BlockQ8_0::read(self.buf.raw(), block_idx);
            let mut cache: [u32; 32] = [0u32; 32];
            block.dequantize(&mut cache, &self.deq);
            self.current_f32_buf = cache;
            self.current_block = block_idx;
        }
        let val = self.current_f32_buf[self.pos % 32];
        let ghost old_pos = self.pos as int;
        let ghost step = self.step as int;
        if self.step > usize::MAX - self.pos {
            self.pos = usize::MAX;
        } else {
            self.pos = self.pos + self.step;
            proof {
                assert forall|k: int|
                    0 <= k && #[trigger] hop(self.pos as int, step, k) < self.end implies hop(
                    self.pos as int,
                    step,
                    k,
                ) < self.buf.spec_len() by {
                    assert(hop(old_pos, step, k + 1) == hop(self.pos as int, step, k))
                        by (nonlinear_arith)
                        requires
                            self.pos as int == old_pos + step,
                    ;
                }
            }
        }
        Some(val)
    }
}


impl<'a, F: Fn(i8, u16) -> u32> BlockBufIterQ8_0<'a, F> {
    /// The remaining values of the walk, in order.
    ///
    /// A walk with step zero that has not reached its end never ends, so it
    /// is not accepted here.
    pub fn into_vec(self) -> (out: Vec<u32>)
        requires
            self.wf(),
            self.spec_step() > 0 || self.spec_pos() >= self.spec_end(),
        ensures
            hop(self.spec_pos() as int, self.spec_step() as int, out@.len() as int)
                >= self.spec_end(),
            out@.len() > 0 ==> hop(
                self.spec_pos() as int,
                self.spec_step() as int,
                out@.len() - 1,
            ) < self.spec_end(),
            forall|k: int|
                0 <= k < out@.len() ==> call_ensures(
                    self.spec_deq(),
                    (
                        quant_at(
                            self.spec_raw(),
                            hop(self.spec_pos() as int, self.spec_step() as int, k),
                        ),
                        scale_at(
                            self.spec_raw(),
                            hop(self.spec_pos() as int, self.spec_step() as int, k),
                        ),
                    ),
                    #[trigger] out@[k],
                ),
    {
        let mut it = self;
        let ghost start = it.pos as int;
        let ghost step = it.step as int;
        let ghost end = it.end;
        let ghost raw = it.spec_raw();
        let ghost deq = it.deq;
        let mut out: Vec<u32> = Vec::new();
        assert(hop(start, step, 0) == start);
        while it.pos < it.end
            invariant
                it.wf(),
                it.end == end,
                it.spec_raw() == raw,
                it.spec_deq() == deq,
                it.step as int == step,
                step > 0 || it.pos >= it.end,
                it.pos as int <= hop(start, step, out@.len() as int),
                it.pos < it.end ==> it.pos as int == hop(start, step, out@.len() as int),
                out@.len() > 0 ==> hop(start, step, out@.len() - 1) < it.end,
                forall|k: int|
                    0 <= k < out@.len() ==> call_ensures(
                        deq,
                        (quant_at(raw, hop(start, step, k)), scale_at(raw, hop(start, step, k))),
                        #[trigger] out@[k],
                    ),
            decreases
                    (if it.pos < end {
                        end - it.pos
                    } else {
                        0
                    }),
        {
            let ghost n = out@.len() as int;
            match it.next() {
                Some(v) => {
                    out.push(v);
                },
                None => {},
            }
            proof {
                assert(hop(start, step, n + 1) == hop(start, step, n) + step) by (nonlinear_arith);
            }
        }
        out
    }
}

/// Sum of the 32 products of two blocks' quants, computed in integers.
///
/// No partial sum exceeds 2^19 in magnitude, so the same sum formed in
/// single precision, in any order, is this very number.
pub fn block_int_dot(a: &BlockQ8_0, b: &BlockQ8_0) -> (s: i32)
    ensures
        s == int_dot(a.qs@, b.qs@),
{
    let mut s: i32 = 0;
    let mut j: usize = 0;
    while j < 32
        invariant
            j <= 32,
            s == int_dot(a.qs@.take(j as int), b.qs@.take(j as int)),
            -16384 * j <= s <= 16384 * j,
        decreases 32 - j,
    {
        let x = a.qs[j] as i32;
        let y = b.qs[j] as i32;
        assert(-16384 <= x * y <= 16384) by (nonlinear_arith)
            requires
                -128 <= x <= 127,
                -128 <= y <= 127,
        ;
        proof {
            assert(a.qs@.take(j + 1).drop_last() =~= a.qs@.take(j as int));
            assert(b.qs@.take(j + 1).drop_last() =~= b.qs@.take(j as int));
        }
        s = s + x * y;
        j = j + 1;
    }
    assert(a.qs@.take(32) =~= a.qs@);
    assert(b.qs@.take(32) =~= b.qs@);
    s
}

/// Integer dot products of the leading block pairs of `w` and `x`.
pub open spec fn pair_dots(w: Seq<BlockQ8_0>, x: Seq<BlockQ8_0>, n: nat) -> Seq<i32> {
    Seq::new(n, |i: int| int_dot(w[i].qs@, x[i].qs@) as i32)
}

/// Scale bits of the leading block pairs of `w` and `x`.
pub open spec fn pair_scales(w: Seq<BlockQ8_0>, x: Seq<BlockQ8_0>, n: nat) -> Seq<(u16, u16)> {
    Seq::new(n, |i: int| (w[i].d, x[i].d))
}

/// Number of block pairs two runs of blocks have in common.
pub open spec fn common_blocks(w: int, x: int) -> nat {
    if w <= x {
        w as nat
    } else {
        x as nat
    }
}

/// Dot product of two runs of blocks.
///
/// For each pair of blocks in turn, `scale` takes the sum so far, the exact
/// integer dot product of the quants and the two scales. The shorter run
/// decides how many pairs there are.
pub fn vec_dot_q8_0_q8_0<F: Fn(u32, i32, (u16, u16)) -> u32>(
    w: &[BlockQ8_0],
    x: &[BlockQ8_0],
    zero: u32,
    scale: &F,
) -> (out: u32)
    requires
        total3(*scale),
    ensures
        mac_fold(
            *scale,
            zero,
            pair_dots(w@, x@, common_blocks(w@.len() as int, x@.len() as int)),
            pair_scales(w@, x@, common_blocks(w@.len() as int, x@.len() as int)),
            out,
        ),
{
    let n = if w.len() <= x.len() {
        w.len()
    } else {
        x.len()
    };
    let mut sum = zero;
    let mut i: usize = 0;
    while i < n
        invariant
            total3(*scale),
            i <= n,
            n == common_blocks(w@.len() as int, x@.len() as int),
            mac_fold(*scale, zero, pair_dots(w@, x@, i as nat), pair_scales(w@, x@, i as nat), sum),
        decreases n - i,
    {
        let dot = block_int_dot(&w[i], &x[i]);
        let ghost prev = sum;
        sum = scale(sum, dot, (w[i].d, x[i].d));
        proof {
            lemma_mac_fold_push(
                *scale,
                zero,
                pair_dots(w@, x@, i as nat),
                pair_scales(w@, x@, i as nat),
                prev,
                dot,
                (w@[i as int].d, x@[i as int].d),
                sum,
            );
            assert(pair_dots(w@, x@, i as nat).push(dot) =~= pair_dots(w@, x@, (i + 1) as nat));
            assert(pair_scales(w@, x@, i as nat).push((w@[i as int].d, x@[i as int].d))
                =~= pair_scales(w@, x@, (i + 1) as nat));
        }
        i = i + 1;
    }
    sum
}


/// Scale bits of the first `n` blocks of `w`.
pub open spec fn block_scales(w: Seq<BlockQ8_0>, n: nat) -> Seq<u16> {
    Seq::new(n, |i: int| w[i].d)
}

/// `out` is a dot product of the blocks `w` with the scalars `x`, taken
/// block by block: within block `i` the 32 quants meet the scalars
/// `x[32 i ..]` in ascending order through `lane`, starting from `zero`; the
/// block sums then enter `scale` in ascending order, each with its block's
/// scale, again starting from `zero`.
pub open spec fn blockwise_dot<X, L: Fn(u32, i8, X) -> u32, S: Fn(u32, u32, u16) -> u32>(
    lane: L,
    scale: S,
    zero: u32,
    w: Seq<BlockQ8_0>,
    x: Seq<X>,
    out: u32,
) -> bool {
    let n = common_blocks(w.len() as int, x.len() as int / 32);
    exists|sums: Seq<u32>|
        {
            &&& #[trigger] sums.len() == n
            &&& forall|i: int|
                0 <= i < n ==> mac_fold(
                    lane,
                    zero,
                    w[i].qs@,
                    x.subrange(32 * i, 32 * i + 32),
                    #[trigger] sums[i],
                )
            &&& mac_fold(scale, zero, sums, block_scales(w, n), out)
        }
}

/// Dot product of a run of blocks with a run of scalars, block by block.
///
/// Scalars beyond the last block, and blocks beyond the last full chunk of
/// scalars, take no part. A ragged last chunk that a block would have to
/// meet is not accepted.
pub fn vec_dot_blocks<X: Copy, L: Fn(u32, i8, X) -> u32, S: Fn(u32, u32, u16) -> u32>(
    w: &[BlockQ8_0],
    x: &[X],
    zero: u32,
    lane: &L,
    scale: &S,
) -> (out: u32)
    requires
        total3(*lane),
        total3(*scale),
        x@.len() % 32 == 0 || w@.len() <= x@.len() / 32,
    ensures
        blockwise_dot(*lane, *scale, zero, w@, x@, out),
{
    let x_len = x.len();
    let chunks = x_len / 32;
    let n = if w.len() <= chunks {
        w.len()
    } else {
        chunks
    };
    let mut sum = zero;
    let ghost mut sums: Seq<u32> = Seq::empty();
    let mut i: usize = 0;
    while i < n
        invariant
            total3(*lane),
            total3(*scale),
            i <= n,
            n <= w@.len(),
            x_len == x@.len(),
            n <= x_len / 32,
            sums.len() == i,
            forall|t: int|
                0 <= t < i ==> mac_fold(
                    *lane,
                    zero,
                    w@[t].qs@,
                    x@.subrange(32 * t, 32 * t + 32),
                    #[trigger] sums[t],
                ),
            mac_fold(*scale, zero, sums, block_scales(w@, i as nat), sum),
        decreases n - i,
    {
        let block = &w[i];
        let block_sum = mac_strided(lane, zero, block.qs.as_slice(), 0, 1, x, 32 * i, 1, 32);
        let ghost prev = sum;
        sum = scale(sum, block_sum, block.d);
        proof {
            assert(strided(block.qs@, 0, 1, 32) =~= block.qs@);
            assert(strided(x@, 32 * i as int, 1, 32) =~= x@.subrange(32 * i, 32 * i + 32));
            lemma_mac_fold_push(
                *scale,
                zero,
                sums,
                block_scales(w@, i as nat),
                prev,
                block_sum,
                block.d,
                sum,
            );
            assert(block_scales(w@, i as nat).push(block.d) =~= block_scales(w@, (i + 1) as nat));
            sums = sums.push(block_sum);
        }
        i = i + 1;
    }
    sum
}

/// Dot product of a run of blocks with half-precision scalars, given as bit
/// patterns.
pub fn vec_dot_q8_0_f16<L: Fn(u32, i8, u16) -> u32, S: Fn(u32, u32, u16) -> u32>(
    w: &[BlockQ8_0],
    x: &[u16],
    zero: u32,
    lane: &L,
    scale: &S,
) -> (out: u32)
    requires
        total3(*lane),
        total3(*scale),
        x@.len() % 32 == 0 || w@.len() <= x@.len() / 32,
    ensures
        blockwise_dot(*lane, *scale, zero, w@, x@, out),
{
    vec_dot_blocks(w, x, zero, lane, scale)
}

impl<'a> QuantBufQ8_0<'a> {
    /// Dot product of the elements `offset .. offset + x.len()` with the
    /// single-precision scalars `x`, given as bit patterns.
    ///
    /// The range has to cover whole blocks inside the buffer.
    pub fn vec_dot_f32<L: Fn(u32, i8, u32) -> u32, S: Fn(u32, u32, u16) -> u32>(
        &self,
        offset: usize,
        x: &[u32],
        zero: u32,
        lane: &L,
        scale: &S,
    ) -> (out: u32)
        requires
            self.wf(),
            total3(*lane),
            total3(*scale),
            (offset + x@.len()) / 32 <= self.spec_num_blocks(),
            ((offset + x@.len()) / 32 - offset / 32) * 32 == x@.len(),
        ensures
            exists|row: Seq<BlockQ8_0>|
                {
                    &&& #[trigger] row.len() == x@.len() / 32
                    &&& forall|i: int|
                        0 <= i < row.len() ==> (#[trigger] row[i]).holds(
                            self.spec_raw(),
                            offset / 32 + i,
                        )
                    &&& blockwise_dot(*lane, *scale, zero, row, x@, out)
                },
    {
        let raw = self.raw.iter();
        proof {
            lemma_len_fits(raw);
            lemma_len_fits(x);
        }
        let row = self.blocks_range(offset, offset + x.len());
        vec_dot_blocks(row.as_slice(), x, zero, lane, scale)
    }
}


impl<'a> QuantBufQ8_0<'a> {
    /// Quantizes a run of scalars into an owned region, 32 to a block.
    ///
    /// The scale of a block is what `scale_of` returns for its chunk; quant
    /// `j` is what `quant` returns for the chunk's value `j` and that scale.
    pub fn quantize<S: Fn(&[u32]) -> u16, Q: Fn(u32, u16) -> i8>(
        data: &[u32],
        scale_of: &S,
        quant: &Q,
    ) -> (r: Self)
        requires
            data@.len() % 32 == 0,
            34 * (data@.len() / 32) <= usize::MAX,
            forall|chunk: &[u32]| chunk@.len() == 32 ==> call_requires(*scale_of, (chunk,)),
            forall|x: u32, d: u16| call_requires(*quant, (x, d)),
        ensures
            r.wf(),
            r.spec_is_owned(),
            r.spec_len() == data@.len(),
            forall|c: int, chunk: &[u32]|
                0 <= c < data@.len() / 32 && chunk@ == chunk_of(data@, c) ==> #[trigger] call_ensures(
                    *scale_of,
                    (chunk,),
                    block_scale(r.spec_raw(), c),
                ),
            forall|c: int, j: int|
                0 <= c < data@.len() / 32 && 0 <= j < 32 ==> call_ensures(
                    *quant,
                    (data@[32 * c + j], block_scale(r.spec_raw(), c)),
                    #[trigger] block_quant(r.spec_raw(), c, j),
                ),
    {
        let blocks = BlockQ8_0::quantize(data, scale_of, quant);
        let raw = BlockQ8_0::to_bytes(blocks.as_slice());
        proof {
            assert forall|c: int, j: int| 0 <= c < data@.len() / 32 && 0 <= j < 32 implies call_ensures(
                *quant,
                (data@[32 * c + j], block_scale(raw@, c)),
                #[trigger] block_quant(raw@, c, j),
            ) by {
                assert(blocks@[c].holds(raw@, c));
                assert(blocks@[c].qs@[j] == block_quants(raw@, c)[j]);
            }
            assert forall|c: int, chunk: &[u32]|
                0 <= c < data@.len() / 32 && chunk@ == chunk_of(data@, c) implies #[trigger] call_ensures(
                *scale_of,
                (chunk,),
                block_scale(raw@, c),
            ) by {
                assert(blocks@[c].holds(raw@, c));
                assert(call_ensures(*scale_of, (chunk,), blocks@[c].d));
            }
        }
        QuantBufQ8_0::from_vec(raw)
    }
}


impl<'a> Clone for QuantBufQ8_0<'a> {
    fn clone(&self) -> (r: Self)
        ensures
            r.spec_raw() == self.spec_raw(),
            r.spec_is_owned() == self.spec_is_owned(),
            self.wf() ==> r.wf(),
    {
        QuantBufQ8_0 { raw: self.raw.clone(), num_blocks: self.num_blocks }
    }
}

} // verus!
