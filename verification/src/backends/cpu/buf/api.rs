use crate::backends::cpu::buf::buf_q8_0::{le16, QuantBufQ8_0};
use crate::accumulate::{lemma_len_fits, mac_fold, mac_strided, strided, total3};
use crate::backends::cpu::buf::buf_quant::{
    block_encoded, dequantized, run_dots, run_headers, QuantBuf,
};
use crate::error::{Error, ErrorKind, Result};
use crate::gguf::GGMLType;
use vstd::prelude::*;
use vstd::slice::slice_to_vec;

verus! {

/// The 32-bit value whose little-endian bytes are `b0` to `b3`.
pub open spec fn le32(b0: u8, b1: u8, b2: u8, b3: u8) -> u32 {
    (b0 + 256 * b1 + 65536 * b2 + 16777216 * b3) as u32
}

/// The 32-bit words a byte region holds, low byte first.
pub open spec fn words32(raw: Seq<u8>) -> Seq<u32> {
    Seq::new(
        raw.len() / 4,
        |i: int| le32(raw[4 * i], raw[4 * i + 1], raw[4 * i + 2], raw[4 * i + 3]),
    )
}

/// The 16-bit words a byte region holds, low byte first.
pub open spec fn words16(raw: Seq<u8>) -> Seq<u16> {
    Seq::new(raw.len() / 2, |i: int| le16(raw[2 * i], raw[2 * i + 1]))
}

/// Plain scalars of one width, kept as bit patterns.
///
/// `Owned` scalars belong to the buffer and may be written. `Borrowed`
/// scalars are lent by the caller. `Loaded` scalars were decoded from
/// foreign bytes; like borrowed ones they are read-only.
#[derive(Debug)]
pub enum Scalars<'a, W: Copy> {
    Owned(Vec<W>),
    Borrowed(&'a [W]),
    Loaded(Vec<W>),
}

impl<'a, W: Copy> View for Scalars<'a, W> {
    type V = Seq<W>;

    open spec fn view(&self) -> Seq<W> {
        match self {
            Scalars::Owned(v) => v@,
            Scalars::Borrowed(s) => s@,
            Scalars::Loaded(v) => v@,
        }
    }
}

impl<'a, W: Copy> Scalars<'a, W> {
    /// Whether the storage belongs to the value and may be written.
    pub open spec fn spec_is_owned(&self) -> bool {
        self is Owned
    }

    /// Whether the storage belongs to the value and may be written.
    pub fn is_owned(&self) -> (r: bool)
        ensures
            r == self.spec_is_owned(),
    {
        match self {
            Scalars::Owned(_) => true,
            _ => false,
        }
    }

    /// The scalars, in order.
    pub fn as_slice(&self) -> (s: &[W])
        ensures
            s@ == self@,
    {
        match self {
            Scalars::Owned(v) => v.as_slice(),
            Scalars::Borrowed(s) => s,
            Scalars::Loaded(v) => v.as_slice(),
        }
    }

    /// Number of elements.
    pub fn len(&self) -> (n: usize)
        ensures
            n == self@.len(),
    {
        self.as_slice().len()
    }

    /// Write access to owned scalars.
    pub fn as_mut_vec(&mut self) -> (v: &mut Vec<W>)
        requires
            old(self).spec_is_owned(),
        ensures
            v@ == old(self)@,
            final(self).spec_is_owned(),
            final(self)@ == final(v)@,
    {
        match self {
            Scalars::Owned(v) => v,
            _ => unreached(),
        }
    }

    /// An owned copy of the scalars.
    pub fn to_owned_copy(&self) -> (r: Scalars<'a, W>)
        ensures
            r.spec_is_owned(),
            r@ == self@,
    {
        Scalars::Owned(slice_to_vec(self.as_slice()))
    }

    /// A copy of the same kind: owned stays owned, borrowed stays borrowed.
    pub fn duplicate(&self) -> (r: Scalars<'a, W>)
        ensures
            r@ == self@,
            r.spec_is_owned() == self.spec_is_owned(),
    {
        match self {
            Scalars::Owned(v) => Scalars::Owned(slice_to_vec(v.as_slice())),
            Scalars::Borrowed(s) => Scalars::Borrowed(s),
            Scalars::Loaded(v) => Scalars::Loaded(slice_to_vec(v.as_slice())),
        }
    }
}

/// Decodes a byte region into 32-bit words, low byte first.
pub fn decode_words32(buf: &[u8]) -> (out: Vec<u32>)
    requires
        buf@.len() % 4 == 0,
    ensures
        out@ == words32(buf@),
{
    let len = buf.len();
    let n = len / 4;
    let mut out: Vec<u32> = Vec::new();
    let mut i: usize = 0;
    while i < n
        invariant
            i <= n,
            len == buf@.len(),
            n == len / 4,
            len % 4 == 0,
            out@.len() == i,
            forall|t: int| 0 <= t < i ==> out@[t] == words32(buf@)[t],
        decreases n - i,
    {
        let b0 = buf[4 * i] as u32;
        let b1 = buf[4 * i + 1] as u32;
        let b2 = buf[4 * i + 2] as u32;
        let b3 = buf[4 * i + 3] as u32;
        out.push(b0 + 256 * b1 + 65536 * b2 + 16777216 * b3);
        i = i + 1;
    }
    assert(out@ =~= words32(buf@));
    out
}

/// Decodes a byte region into 16-bit words, low byte first.
pub fn decode_words16(buf: &[u8]) -> (out: Vec<u16>)
    requires
        buf@.len() % 2 == 0,
    ensures
        out@ == words16(buf@),
{
    let len = buf.len();
    let n = len / 2;
    let mut out: Vec<u16> = Vec::new();
    let mut i: usize = 0;
    while i < n
        invariant
            i <= n,
            len == buf@.len(),
            n == len / 2,
            len % 2 == 0,
            out@.len() == i,
            forall|t: int| 0 <= t < i ==> out@[t] == words16(buf@)[t],
        decreases n - i,
    {
        let b0 = buf[2 * i] as u16;
        let b1 = buf[2 * i + 1] as u16;
        out.push(b0 + 256 * b1);
        i = i + 1;
    }
    assert(out@ =~= words16(buf@));
    out
}

/// A tensor's storage in any of the element formats.
///
/// Plain scalars are kept as bit patterns: 32-bit words for `F32`, 16-bit
/// words for `F16`. Block-quantized storage is the packed bytes, read in
/// place. Only owned plain storage can be written.
#[allow(non_camel_case_types)]
#[derive(Debug)]
pub enum CpuTensorBuf<'a> {
    F32(Scalars<'a, u32>),
    F16(Scalars<'a, u16>),
    Q8_0(QuantBufQ8_0<'a>),
    Q8_1(QuantBuf<'a>),
    Q4_0(QuantBuf<'a>),
    Q4_1(QuantBuf<'a>),
}

impl<'a> CpuTensorBuf<'a> {
    /// The element format.
    pub open spec fn spec_dtype(&self) -> GGMLType {
        match self {
            CpuTensorBuf::F32(_) => GGMLType::F32,
            CpuTensorBuf::F16(_) => GGMLType::F16,
            CpuTensorBuf::Q8_0(_) => GGMLType::Q8_0,
            CpuTensorBuf::Q8_1(_) => GGMLType::Q8_1,
            CpuTensorBuf::Q4_0(_) => GGMLType::Q4_0,
            CpuTensorBuf::Q4_1(_) => GGMLType::Q4_1,
        }
    }

    /// Block-quantized storage is a whole number of blocks of the format
    /// the variant names.
    pub open spec fn wf(&self) -> bool {
        match self {
            CpuTensorBuf::F32(_) => true,
            CpuTensorBuf::F16(_) => true,
            CpuTensorBuf::Q8_0(b) => b.wf(),
            CpuTensorBuf::Q8_1(b) => b.wf() && b.spec_dtype() == GGMLType::Q8_1,
            CpuTensorBuf::Q4_0(b) => b.wf() && b.spec_dtype() == GGMLType::Q4_0,
            CpuTensorBuf::Q4_1(b) => b.wf() && b.spec_dtype() == GGMLType::Q4_1,
        }
    }

    /// The block format of the storage is the one the variant names.
    pub open spec fn spec_is_consistent(&self) -> bool {
        match self {
            CpuTensorBuf::Q8_1(b) => b.spec_dtype() == GGMLType::Q8_1,
            CpuTensorBuf::Q4_0(b) => b.spec_dtype() == GGMLType::Q4_0,
            CpuTensorBuf::Q4_1(b) => b.spec_dtype() == GGMLType::Q4_1,
            _ => true,
        }
    }

    /// Whether the block format of the storage is the one the variant
    /// names. A buffer put together by hand may fail this; one made by this
    /// crate never does.
    pub fn is_consistent(&self) -> (r: bool)
        ensures
            r == self.spec_is_consistent(),
            self.wf() ==> r,
    {
        match self {
            CpuTensorBuf::Q8_1(b) => b.dtype() == GGMLType::Q8_1,
            CpuTensorBuf::Q4_0(b) => b.dtype() == GGMLType::Q4_0,
            CpuTensorBuf::Q4_1(b) => b.dtype() == GGMLType::Q4_1,
            _ => true,
        }
    }

    /// Number of elements.
    pub open spec fn spec_len(&self) -> nat {
        match self {
            CpuTensorBuf::F32(s) => s@.len(),
            CpuTensorBuf::F16(s) => s@.len(),
            CpuTensorBuf::Q8_0(b) => b.spec_len(),
            CpuTensorBuf::Q8_1(b) => b.spec_len(),
            CpuTensorBuf::Q4_0(b) => b.spec_len(),
            CpuTensorBuf::Q4_1(b) => b.spec_len(),
        }
    }

    /// Whether the storage may be written: owned plain scalars only.
    pub open spec fn spec_is_owned(&self) -> bool {
        match self {
            CpuTensorBuf::F32(s) => s.spec_is_owned(),
            CpuTensorBuf::F16(s) => s.spec_is_owned(),
            _ => false,
        }
    }

    /// The single-precision bit patterns of an `F32` buffer.
    pub open spec fn spec_f32(&self) -> Seq<u32> {
        match self {
            CpuTensorBuf::F32(s) => s@,
            _ => Seq::empty(),
        }
    }

    /// The half-precision bit patterns of an `F16` buffer.
    pub open spec fn spec_f16(&self) -> Seq<u16> {
        match self {
            CpuTensorBuf::F16(s) => s@,
            _ => Seq::empty(),
        }
    }

    /// The packed bytes of a block-quantized buffer.
    pub open spec fn spec_raw(&self) -> Seq<u8> {
        match self {
            CpuTensorBuf::Q8_0(b) => b.spec_raw(),
            CpuTensorBuf::Q8_1(b) => b.spec_raw(),
            CpuTensorBuf::Q4_0(b) => b.spec_raw(),
            CpuTensorBuf::Q4_1(b) => b.spec_raw(),
            _ => Seq::empty(),
        }
    }

    /// Reads foreign bytes as a buffer of format `typ`.
    ///
    /// The bytes have to be a whole number of elements or blocks of the
    /// format, and the number of elements a machine integer. Plain scalars
    /// are decoded low byte first; blocks are read in place. The buffer is
    /// read-only.
    pub fn from_raw_bytes(buf: &'a [u8], typ: GGMLType) -> (r: Result<Self>)
        ensures
            r is Ok <==> buf@.len() % typ.spec_block_bytes() == 0 && (buf@.len()
                / typ.spec_block_bytes()) * typ.spec_block_elems() <= usize::MAX,
            r matches Ok(b) ==> {
                &&& b.wf()
                &&& b.spec_dtype() == typ
                &&& !b.spec_is_owned()
                &&& b.spec_len() == (buf@.len() / typ.spec_block_bytes()) * typ.spec_block_elems()
                &&& typ == GGMLType::F32 ==> b.spec_f32() == words32(buf@)
                &&& typ == GGMLType::F16 ==> b.spec_f16() == words16(buf@)
                &&& typ.spec_is_quantized() ==> b.spec_raw() == buf@
            },
            r matches Err(e) ==> e.spec_is_bare() && e.kind == (if buf@.len() % typ.spec_block_bytes() != 0 {
                ErrorKind::TensorAlignment
            } else {
                ErrorKind::TensorShape
            }),
    {
        let len = buf.len();
        let size = typ.block_bytes();
        if len % size != 0 {
            return Err(Error::bare(ErrorKind::TensorAlignment));
        }
        let blocks = len / size;
        if typ.is_quantized() && blocks > usize::MAX / 32 {
            return Err(Error::bare(ErrorKind::TensorShape));
        }
        match typ {
            GGMLType::F32 => Ok(CpuTensorBuf::F32(Scalars::Loaded(decode_words32(buf)))),
            GGMLType::F16 => Ok(CpuTensorBuf::F16(Scalars::Loaded(decode_words16(buf)))),
            GGMLType::Q8_0 => Ok(CpuTensorBuf::Q8_0(QuantBufQ8_0::from_bytes(buf))),
            GGMLType::Q8_1 => Ok(CpuTensorBuf::Q8_1(QuantBuf::from_bytes(buf, typ))),
            GGMLType::Q4_0 => Ok(CpuTensorBuf::Q4_0(QuantBuf::from_bytes(buf, typ))),
            GGMLType::Q4_1 => Ok(CpuTensorBuf::Q4_1(QuantBuf::from_bytes(buf, typ))),
        }
    }

    /// Whether the storage belongs to the value and may be written.
    pub fn is_owned(&self) -> (r: bool)
        ensures
            r == self.spec_is_owned(),
    {
        match self {
            CpuTensorBuf::F32(s) => s.is_owned(),
            CpuTensorBuf::F16(s) => s.is_owned(),
            _ => false,
        }
    }

    /// Whether the buffer holds one of the block formats.
    pub fn is_quantized(&self) -> (r: bool)
        ensures
            r == self.spec_dtype().spec_is_quantized(),
    {
        self.dtype().is_quantized()
    }

    /// Number of elements (not bytes).
    pub fn len(&self) -> (n: usize)
        requires
            self.wf(),
        ensures
            n == self.spec_len(),
    {
        match self {
            CpuTensorBuf::F32(s) => s.len(),
            CpuTensorBuf::F16(s) => s.len(),
            CpuTensorBuf::Q8_0(b) => b.len(),
            CpuTensorBuf::Q8_1(b) => b.len(),
            CpuTensorBuf::Q4_0(b) => b.len(),
            CpuTensorBuf::Q4_1(b) => b.len(),
        }
    }

    /// Whether the buffer holds no element.
    pub fn is_empty(&self) -> (r: bool)
        requires
            self.wf(),
        ensures
            r == (self.spec_len() == 0),
    {
        self.len() == 0
    }

    /// The element format.
    pub fn dtype(&self) -> (t: GGMLType)
        ensures
            t == self.spec_dtype(),
    {
        match self {
            CpuTensorBuf::F32(_) => GGMLType::F32,
            CpuTensorBuf::F16(_) => GGMLType::F16,
            CpuTensorBuf::Q8_0(_) => GGMLType::Q8_0,
            CpuTensorBuf::Q8_1(_) => GGMLType::Q8_1,
            CpuTensorBuf::Q4_0(_) => GGMLType::Q4_0,
            CpuTensorBuf::Q4_1(_) => GGMLType::Q4_1,
        }
    }

    /// The format the right operand of a dot product with this buffer must
    /// have.
    pub fn vec_dot_rhs_dtype(&self) -> (t: GGMLType)
        ensures
            t == self.spec_dtype().spec_vec_dot_rhs(),
    {
        self.dtype().vec_dot_rhs()
    }

    /// The bit patterns of an `F32` buffer.
    pub fn as_f32_ref(&self) -> (s: &[u32])
        requires
            self.spec_dtype() == GGMLType::F32,
        ensures
            s@ == self.spec_f32(),
    {
        match self {
            CpuTensorBuf::F32(buf) => buf.as_slice(),
            _ => unreached(),
        }
    }

    /// The bit patterns of an owned `F32` buffer, for writing. The scalars
    /// can be replaced; their number stays.
    pub fn as_f32_mut(&mut self) -> (s: &mut [u32])
        requires
            old(self).spec_dtype() == GGMLType::F32,
            old(self).spec_is_owned(),
        ensures
            s@ == old(self).spec_f32(),
            final(self).spec_dtype() == GGMLType::F32,
            final(self).spec_is_owned(),
            final(self).spec_f32() == final(s)@,
    {
        match self {
            CpuTensorBuf::F32(buf) => buf.as_mut_vec().as_mut_slice(),
            _ => unreached(),
        }
    }

    /// The bit patterns of an `F32` buffer, in order.
    pub fn iter_f32(&self) -> (s: &[u32])
        requires
            self.spec_dtype() == GGMLType::F32,
        ensures
            s@ == self.spec_f32(),
    {
        self.as_f32_ref()
    }

    /// The bit patterns of an owned `F32` buffer, for writing in order.
    pub fn iter_f32_mut(&mut self) -> (s: &mut [u32])
        requires
            old(self).spec_dtype() == GGMLType::F32,
            old(self).spec_is_owned(),
        ensures
            s@ == old(self).spec_f32(),
            final(self).spec_dtype() == GGMLType::F32,
            final(self).spec_is_owned(),
            final(self).spec_f32() == final(s)@,
    {
        self.as_f32_mut()
    }

    /// Appends scalars to an owned `F32` buffer.
    pub fn extend(&mut self, items: &[u32])
        requires
            old(self).spec_dtype() == GGMLType::F32,
            old(self).spec_is_owned(),
        ensures
            final(self).spec_dtype() == GGMLType::F32,
            final(self).spec_is_owned(),
            final(self).spec_f32() == old(self).spec_f32() + items@,
    {
        match self {
            CpuTensorBuf::F32(words) => {
                let buf = words.as_mut_vec();
                let ghost before = buf@;
                buf.extend_from_slice(items);
                assert(buf@ =~= before + items@);
            },
            _ => {},
        }
    }

    /// An owned `F32` buffer that holds `buf`.
    pub fn from_vec(buf: Vec<u32>) -> (r: Self)
        ensures
            r.wf(),
            r.spec_dtype() == GGMLType::F32,
            r.spec_is_owned(),
            r.spec_f32() == buf@,
    {
        CpuTensorBuf::F32(Scalars::Owned(buf))
    }

    /// A read-only `F32` buffer over a borrowed slice.
    pub fn from_slice(buf: &'a [u32]) -> (r: Self)
        ensures
            r.wf(),
            r.spec_dtype() == GGMLType::F32,
            !r.spec_is_owned(),
            r.spec_f32() == buf@,
    {
        CpuTensorBuf::F32(Scalars::Borrowed(buf))
    }
}


impl<'a, W: Copy> Clone for Scalars<'a, W> {
    /// Owned and loaded scalars are copied; borrowed ones stay borrowed.
    fn clone(&self) -> (r: Self)
        ensures
            r@ == self@,
            r.spec_is_owned() == self.spec_is_owned(),
    {
        self.duplicate()
    }
}

impl<'a> Clone for CpuTensorBuf<'a> {
    fn clone(&self) -> (r: Self)
        ensures
            r.spec_dtype() == self.spec_dtype(),
            r.spec_is_owned() == self.spec_is_owned(),
            r.spec_len() == self.spec_len(),
            r.spec_f32() == self.spec_f32(),
            r.spec_f16() == self.spec_f16(),
            r.spec_raw() == self.spec_raw(),
            self.wf() ==> r.wf(),
    {
        match self {
            CpuTensorBuf::F32(buf) => CpuTensorBuf::F32(buf.clone()),
            CpuTensorBuf::F16(buf) => CpuTensorBuf::F16(buf.clone()),
            CpuTensorBuf::Q8_0(buf) => CpuTensorBuf::Q8_0(buf.clone()),
            CpuTensorBuf::Q8_1(buf) => CpuTensorBuf::Q8_1(buf.clone()),
            CpuTensorBuf::Q4_0(buf) => CpuTensorBuf::Q4_0(buf.clone()),
            CpuTensorBuf::Q4_1(buf) => CpuTensorBuf::Q4_1(buf.clone()),
        }
    }
}


impl<'a> CpuTensorBuf<'a> {
    /// The values of all elements of a block-quantized buffer, in order.
    fn dequantize_all<D: Fn(i8, u16) -> u32, M: Fn(i8, u16, u16) -> u32>(
        &self,
        deq: &D,
        deq_min: &M,
    ) -> (out: Vec<u32>)
        requires
            self.wf(),
            self.spec_dtype().spec_is_quantized(),
            forall|q: i8, d: u16| call_requires(*deq, (q, d)),
            forall|q: i8, d: u16, m: u16| call_requires(*deq_min, (q, d, m)),
        ensures
            out@.len() == self.spec_len(),
            forall|k: int|
                0 <= k < out@.len() ==> dequantized(
                    *deq,
                    *deq_min,
                    self.spec_raw(),
                    self.spec_dtype(),
                    k,
                    #[trigger] out@[k],
                ),
    {
        match self {
            CpuTensorBuf::Q8_0(b) => {
                let raw = b.raw();
                proof {
                    lemma_len_fits(raw);
                }
                let g = QuantBuf::from_bytes(raw, GGMLType::Q8_0);
                g.dequantize(0, deq, deq_min)
            },
            CpuTensorBuf::Q8_1(b) => b.dequantize(0, deq, deq_min),
            CpuTensorBuf::Q4_0(b) => b.dequantize(0, deq, deq_min),
            CpuTensorBuf::Q4_1(b) => b.dequantize(0, deq, deq_min),
            _ => unreached(),
        }
    }

    /// Converts the buffer into owned plain scalars.
    ///
    /// The target has to be `F32` or `F16`. Plain buffers are copied as
    /// they are, whatever the target. Block-quantized buffers are
    /// dequantized to `F32` element by element: through `deq_min` for
    /// `Q4_1`, through `deq` for the others; `F16` is not available as
    /// their target.
    pub fn dequantize<D: Fn(i8, u16) -> u32, M: Fn(i8, u16, u16) -> u32>(
        self,
        dtype: GGMLType,
        deq: &D,
        deq_min: &M,
    ) -> (r: Result<CpuTensorBuf<'a>>)
        requires
            self.wf(),
            forall|q: i8, d: u16| call_requires(*deq, (q, d)),
            forall|q: i8, d: u16, m: u16| call_requires(*deq_min, (q, d, m)),
        ensures
            r is Ok <==> dtype == GGMLType::F32 || (dtype == GGMLType::F16
                && !self.spec_dtype().spec_is_quantized()),
            r matches Ok(b) ==> {
                &&& b.wf()
                &&& b.spec_is_owned()
                &&& b.spec_len() == self.spec_len()
                &&& !self.spec_dtype().spec_is_quantized() ==> {
                    &&& b.spec_dtype() == self.spec_dtype()
                    &&& b.spec_f32() == self.spec_f32()
                    &&& b.spec_f16() == self.spec_f16()
                }
                &&& self.spec_dtype().spec_is_quantized() ==> {
                    &&& b.spec_dtype() == GGMLType::F32
                    &&& forall|k: int|
                        0 <= k < b.spec_len() ==> dequantized(
                            *deq,
                            *deq_min,
                            self.spec_raw(),
                            self.spec_dtype(),
                            k,
                            #[trigger] b.spec_f32()[k],
                        )
                }
            },
            r matches Err(e) ==> e.kind == ErrorKind::TensorDtype && e.spec_is_bare(),
    {
        if dtype != GGMLType::F32 && dtype != GGMLType::F16 {
            return Err(Error::bare(ErrorKind::TensorDtype));
        }
        match &self {
            CpuTensorBuf::F32(buf) => Ok(CpuTensorBuf::F32(buf.to_owned_copy())),
            CpuTensorBuf::F16(buf) => Ok(CpuTensorBuf::F16(buf.to_owned_copy())),
            _ => {
                if dtype == GGMLType::F16 {
                    return Err(Error::bare(ErrorKind::TensorDtype));
                }
                let words = self.dequantize_all(deq, deq_min);
                Ok(CpuTensorBuf::F32(Scalars::Owned(words)))
            },
        }
    }

    /// Converts an `F32` buffer into format `dtype`.
    ///
    /// `F32` gives an owned copy. `F16` gives, element by element, what
    /// `narrow` makes of the scalar. A block format gives an owned encoded
    /// region, 32 elements to a block, with `header_of` and `quant` as the
    /// codec; the number of elements has to be a multiple of 32.
    pub fn quantize<
        N: Fn(u32) -> u16,
        H: Fn(&[u32], GGMLType) -> (u16, u16),
        Q: Fn(u32, u16, u16, GGMLType) -> i8,
    >(&self, dtype: GGMLType, narrow: &N, header_of: &H, quant: &Q) -> (r: Result<
        CpuTensorBuf<'a>,
    >)
        requires
            self.spec_dtype() == GGMLType::F32,
            forall|x: u32| call_requires(*narrow, (x,)),
            forall|chunk: &[u32], t: GGMLType|
                chunk@.len() == 32 ==> call_requires(*header_of, (chunk, t)),
            forall|x: u32, d: u16, aux: u16, t: GGMLType| call_requires(*quant, (x, d, aux, t)),
        ensures
            r is Ok <==> !dtype.spec_is_quantized() || (self.spec_len() % 32 == 0 && (
            self.spec_len() / 32) * dtype.spec_block_bytes() <= usize::MAX),
            r matches Ok(b) ==> {
                &&& b.wf()
                &&& b.spec_dtype() == dtype
                &&& b.spec_len() == self.spec_len()
                &&& dtype == GGMLType::F32 ==> b.spec_is_owned() && b.spec_f32() == self.spec_f32()
                &&& dtype == GGMLType::F16 ==> b.spec_is_owned() && forall|i: int|
                    0 <= i < self.spec_len() ==> call_ensures(
                        *narrow,
                        (self.spec_f32()[i],),
                        #[trigger] b.spec_f16()[i],
                    )
                &&& dtype.spec_is_quantized() ==> forall|c: int|
                    0 <= c < self.spec_len() / 32 ==> #[trigger] block_encoded(
                        *header_of,
                        *quant,
                        self.spec_f32(),
                        b.spec_raw(),
                        dtype,
                        c,
                    )
            },
            r matches Err(e) ==> e.spec_is_bare() && e.kind == (if self.spec_len() % 32 != 0 {
                ErrorKind::TensorAlignment
            } else {
                ErrorKind::TensorShape
            }),
    {
        let data = self.as_f32_ref();
        let len = data.len();
        match dtype {
            GGMLType::F32 => Ok(CpuTensorBuf::F32(Scalars::Owned(slice_to_vec(data)))),
            GGMLType::F16 => {
                let mut out: Vec<u16> = Vec::new();
                let mut i: usize = 0;
                while i < len
                    invariant
                        i <= len,
                        len == data@.len(),
                        forall|x: u32| call_requires(*narrow, (x,)),
                        out@.len() == i,
                        forall|t: int|
                            0 <= t < i ==> call_ensures(*narrow, (data@[t],), #[trigger] out@[t]),
                    decreases len - i,
                {
                    out.push(narrow(data[i]));
                    i = i + 1;
                }
                Ok(CpuTensorBuf::F16(Scalars::Owned(out)))
            },
            _ => {
                if len % 32 != 0 {
                    return Err(Error::bare(ErrorKind::TensorAlignment));
                }
                let size = dtype.block_bytes();
                if len / 32 > usize::MAX / size {
                    proof {
                        let n = (len / 32) as int;
                        assert(n * size > usize::MAX) by (nonlinear_arith)
                            requires
                                n > usize::MAX as int / size as int,
                                size > 0,
                        ;
                    }
                    return Err(Error::bare(ErrorKind::TensorShape));
                }
                proof {
                    let n = (len / 32) as int;
                    assert(n * size <= usize::MAX) by (nonlinear_arith)
                        requires
                            0 <= n <= usize::MAX as int / size as int,
                            size > 0,
                    ;
                }
                let g = QuantBuf::quantize(data, dtype, header_of, quant);
                match dtype {
                    GGMLType::Q8_0 => Ok(
                        CpuTensorBuf::Q8_0(QuantBufQ8_0::from_vec(slice_to_vec(g.raw()))),
                    ),
                    GGMLType::Q8_1 => Ok(CpuTensorBuf::Q8_1(g)),
                    GGMLType::Q4_0 => Ok(CpuTensorBuf::Q4_0(g)),
                    _ => Ok(CpuTensorBuf::Q4_1(g)),
                }
            },
        }
    }
}


/// The operands and the range a dot product accepts.
///
/// The right operand has the format that goes with the left one. Plain
/// operands are `F32`; block operands are addressed in whole blocks. The
/// range lies inside both operands.
pub open spec fn vec_dot_accepts(
    a: &CpuTensorBuf<'_>,
    a_offset: usize,
    b: &CpuTensorBuf<'_>,
    b_offset: usize,
    len: usize,
) -> bool {
    &&& a.wf() && b.wf()
    &&& a.spec_dtype() != GGMLType::F16
    &&& b.spec_dtype() == a.spec_dtype().spec_vec_dot_rhs()
    &&& a_offset + len <= a.spec_len()
    &&& b_offset + len <= b.spec_len()
    &&& a.spec_dtype().spec_is_quantized() ==> a_offset % 32 == 0 && b_offset % 32 == 0 && len % 32
        == 0
}

impl<'a> CpuTensorBuf<'a> {
    /// Dot product of `len` elements of `self` from `a_offset` with `len`
    /// elements of `b` from `b_offset`.
    ///
    /// Two `F32` operands are accumulated pair by pair through `step`, in
    /// ascending order. Block operands are accumulated block by block
    /// through `scale`, which takes the sum so far, the exact integer dot
    /// product of the two blocks' stored integers and their header words.
    pub fn vec_dot<F: Fn(u32, u32, u32) -> u32, S: Fn(u32, i32, (u16, u16, u16, u16)) -> u32>(
        &self,
        a_offset: usize,
        b: &CpuTensorBuf<'_>,
        b_offset: usize,
        len: usize,
        zero: u32,
        step: &F,
        scale: &S,
    ) -> (out: u32)
        requires
            vec_dot_accepts(self, a_offset, b, b_offset, len),
            total3(*step),
            total3(*scale),
        ensures
            self.spec_dtype() == GGMLType::F32 ==> mac_fold(
                *step,
                zero,
                strided(self.spec_f32(), a_offset as int, 1, len as nat),
                strided(b.spec_f32(), b_offset as int, 1, len as nat),
                out,
            ),
            self.spec_dtype().spec_is_quantized() ==> mac_fold(
                *scale,
                zero,
                run_dots(
                    self.spec_raw(),
                    self.spec_dtype(),
                    a_offset as int / 32,
                    b.spec_raw(),
                    b.spec_dtype(),
                    b_offset as int / 32,
                    (len / 32) as nat,
                ),
                run_headers(
                    self.spec_raw(),
                    self.spec_dtype(),
                    a_offset as int / 32,
                    b.spec_raw(),
                    b.spec_dtype(),
                    b_offset as int / 32,
                    (len / 32) as nat,
                ),
                out,
            ),
    {
        match (self, b) {
            (CpuTensorBuf::F32(x), CpuTensorBuf::F32(y)) => {
                let xs = x.as_slice();
                let ys = y.as_slice();
                proof {
                    lemma_len_fits(xs);
                    lemma_len_fits(ys);
                }
                mac_strided(step, zero, xs, a_offset, 1, ys, b_offset, 1, len)
            },
            (CpuTensorBuf::Q8_0(x), CpuTensorBuf::Q8_0(y)) => {
                let (xr, yr) = (x.raw(), y.raw());
                proof {
                    lemma_len_fits(xr);
                    lemma_len_fits(yr);
                }
                let gx = QuantBuf::from_bytes(xr, GGMLType::Q8_0);
                let gy = QuantBuf::from_bytes(yr, GGMLType::Q8_0);
                gx.vec_dot(a_offset, &gy, b_offset, len, zero, scale)
            },
            (CpuTensorBuf::Q8_1(x), CpuTensorBuf::Q8_1(y)) => x.vec_dot(
                a_offset,
                y,
                b_offset,
                len,
                zero,
                scale,
            ),
            (CpuTensorBuf::Q4_0(x), CpuTensorBuf::Q8_0(y)) => {
                let yr = y.raw();
                proof {
                    lemma_len_fits(yr);
                }
                let gy = QuantBuf::from_bytes(yr, GGMLType::Q8_0);
                x.vec_dot(a_offset, &gy, b_offset, len, zero, scale)
            },
            (CpuTensorBuf::Q4_1(x), CpuTensorBuf::Q8_1(y)) => x.vec_dot(
                a_offset,
                y,
                b_offset,
                len,
                zero,
                scale,
            ),
            _ => unreached(),
        }
    }

    /// Number of elements a copy moves: no more than asked for, than the
    /// destination holds, or than the source holds from `offset` on.
    pub open spec fn copy_count(&self, src: &CpuTensorBuf<'_>, offset: usize, len: usize) -> nat {
        let avail = if offset <= src.spec_len() {
            (src.spec_len() - offset) as nat
        } else {
            0
        };
        let room = if self.spec_len() <= avail {
            self.spec_len()
        } else {
            avail
        };
        if len <= room {
            len as nat
        } else {
            room
        }
    }

    /// Copies up to `len` elements of `src`, from `offset` on, to the front
    /// of an owned `F32` buffer.
    ///
    /// An `F32` source is copied as it is. A block-quantized source is
    /// dequantized on the way, and its offset has to be on a block
    /// boundary. An `F16` source is not accepted. On an error nothing is
    /// written.
    pub fn copy_from<D: Fn(i8, u16) -> u32, M: Fn(i8, u16, u16) -> u32>(
        &mut self,
        src: &CpuTensorBuf<'_>,
        offset: usize,
        len: usize,
        deq: &D,
        deq_min: &M,
    ) -> (r: Result<()>)
        requires
            old(self).spec_dtype() == GGMLType::F32,
            old(self).spec_is_owned(),
            src.wf(),
            forall|q: i8, d: u16| call_requires(*deq, (q, d)),
            forall|q: i8, d: u16, m: u16| call_requires(*deq_min, (q, d, m)),
        ensures
            final(self).spec_dtype() == GGMLType::F32,
            final(self).spec_is_owned(),
            final(self).spec_f32().len() == old(self).spec_f32().len(),
            r is Ok <==> src.spec_dtype() != GGMLType::F16 && (src.spec_dtype().spec_is_quantized()
                ==> offset % 32 == 0),
            r matches Err(e) ==> {
                &&& final(self).spec_f32() == old(self).spec_f32()
                &&& e.spec_is_bare()
                &&& e.kind == (if src.spec_dtype() == GGMLType::F16 {
                    ErrorKind::TensorDtype
                } else {
                    ErrorKind::TensorAlignment
                })
            },
            r is Ok ==> {
                &&& forall|i: int|
                    0 <= i < old(self).copy_count(src, offset, len) ==> {
                        &&& src.spec_dtype() == GGMLType::F32 ==> #[trigger] final(self).spec_f32()[i]
                            == src.spec_f32()[offset + i]
                        &&& src.spec_dtype().spec_is_quantized() ==> dequantized(
                            *deq,
                            *deq_min,
                            src.spec_raw(),
                            src.spec_dtype(),
                            offset + i,
                            final(self).spec_f32()[i],
                        )
                    }
                &&& forall|i: int|
                    old(self).copy_count(src, offset, len) <= i < old(self).spec_f32().len()
                        ==> #[trigger] final(self).spec_f32()[i] == old(self).spec_f32()[i]
            },
    {
        let src_len = src.len();
        let ghost count = self.copy_count(src, offset, len);
        let dst = self.as_f32_mut();
        let avail = if offset <= src_len {
            src_len - offset
        } else {
            0
        };
        let room = if dst.len() <= avail {
            dst.len()
        } else {
            avail
        };
        let n = if len <= room {
            len
        } else {
            room
        };
        assert(n == count);
        match src {
            CpuTensorBuf::F32(buf) => {
                let from = buf.as_slice();
                let mut i: usize = 0;
                while i < n
                    invariant
                        i <= n,
                        n <= dst@.len(),
                        n > 0 ==> offset + n <= from@.len(),
                        from@.len() == src_len,
                        dst@.len() == old(self).spec_f32().len(),
                        forall|t: int| 0 <= t < i ==> #[trigger] dst@[t] == from@[offset + t],
                        forall|t: int|
                            i <= t < dst@.len() ==> #[trigger] dst@[t] == old(self).spec_f32()[t],
                    decreases n - i,
                {
                    dst[i] = from[offset + i];
                    i = i + 1;
                }
                Ok(())
            },
            CpuTensorBuf::F16(_) => Err(Error::bare(ErrorKind::TensorDtype)),
            _ => {
                if offset % 32 != 0 {
                    return Err(Error::bare(ErrorKind::TensorAlignment));
                }
                if n > 0 {
                    let words = match src {
                        CpuTensorBuf::Q8_0(b) => {
                            let raw = b.raw();
                            proof {
                                lemma_len_fits(raw);
                            }
                            let g = QuantBuf::from_bytes(raw, GGMLType::Q8_0);
                            g.dequantize_range(offset, offset + n, deq, deq_min)
                        },
                        CpuTensorBuf::Q8_1(b) => b.dequantize_range(
                            offset,
                            offset + n,
                            deq,
                            deq_min,
                        ),
                        CpuTensorBuf::Q4_0(b) => b.dequantize_range(
                            offset,
                            offset + n,
                            deq,
                            deq_min,
                        ),
                        CpuTensorBuf::Q4_1(b) => b.dequantize_range(
                            offset,
                            offset + n,
                            deq,
                            deq_min,
                        ),
                        _ => unreached(),
                    };
                    let mut i: usize = 0;
                    while i < n
                        invariant
                            i <= n,
                            n <= dst@.len(),
                            words@.len() == n,
                            dst@.len() == old(self).spec_f32().len(),
                            forall|t: int| 0 <= t < i ==> #[trigger] dst@[t] == words@[t],
                            forall|t: int|
                                i <= t < dst@.len() ==> #[trigger] dst@[t] == old(
                                    self,
                                ).spec_f32()[t],
                        decreases n - i,
                    {
                        dst[i] = words[i];
                        i = i + 1;
                    }
                }
                Ok(())
            },
        }
    }
}


impl<'a> From<Vec<u32>> for CpuTensorBuf<'a> {
    fn from(buf: Vec<u32>) -> (r: Self) {
        CpuTensorBuf::F32(Scalars::Owned(buf))
    }
}

impl<'a> vstd::std_specs::convert::FromSpecImpl<Vec<u32>> for CpuTensorBuf<'a> {
    open spec fn obeys_from_spec() -> bool {
        true
    }

    open spec fn from_spec(buf: Vec<u32>) -> Self {
        CpuTensorBuf::F32(Scalars::Owned(buf))
    }
}

impl<'a> From<&'a [u32]> for CpuTensorBuf<'a> {
    fn from(buf: &'a [u32]) -> (r: Self) {
        CpuTensorBuf::F32(Scalars::Borrowed(buf))
    }
}

impl<'a> vstd::std_specs::convert::FromSpecImpl<&'a [u32]> for CpuTensorBuf<'a> {
    open spec fn obeys_from_spec() -> bool {
        true
    }

    open spec fn from_spec(buf: &'a [u32]) -> Self {
        CpuTensorBuf::F32(Scalars::Borrowed(buf))
    }
}

} // verus!
