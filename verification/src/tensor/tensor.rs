use crate::error::{Error, ErrorKind, Result};
use crate::tensor::cpu::buf::CpuTensorBuf;
use crate::accumulate::{lemma_strided_in_bounds, strided};
use crate::tensor::strider::{
    extents_positive, index_in_shape, lemma_offset_along_axis, lemma_offset_within_span,
    lemma_row_major_span, suffix_product, TensorStrider,
};
use vstd::prelude::*;

verus! {

/// A flat buffer of scalars together with the shape and strides under which
/// it is read. The scalar type is left open: the tensor moves scalars and
/// never computes with them.
#[derive(Debug)]
pub struct CpuTensor<'a, T: Copy> {
    buf: CpuTensorBuf<'a, T>,
    strider: TensorStrider,
}

impl<'a, T: Copy> View for CpuTensor<'a, T> {
    type V = Seq<T>;

    /// The elements in storage order.
    closed spec fn view(&self) -> Seq<T> {
        self.buf@
    }
}

impl<'a, T: Copy> CpuTensor<'a, T> {
    /// Shape and strides of the tensor.
    pub closed spec fn spec_strider(&self) -> TensorStrider {
        self.strider
    }

    /// Whether the storage belongs to the value and may be written.
    pub closed spec fn spec_is_owned(&self) -> bool {
        self.buf.spec_is_owned()
    }

    /// The extents, one per axis.
    pub open spec fn spec_shape(&self) -> Seq<usize> {
        self.spec_strider().spec_shape()
    }

    /// The strides, one per axis, in elements.
    pub open spec fn spec_strides(&self) -> Seq<usize> {
        self.spec_strider().spec_strides()
    }

    /// Whether the layout is densely packed and row-major.
    pub open spec fn spec_is_contiguous(&self) -> bool {
        self.spec_strider().spec_is_contiguous()
    }

    /// The descriptor is well formed and every element it addresses lies
    /// inside the buffer.
    pub open spec fn wf(&self) -> bool {
        &&& self.spec_strider().wf()
        &&& self.spec_strider().spec_span() < self@.len()
    }

    /// A densely packed tensor that owns `buf`.
    ///
    /// Fails when the shape has a zero extent or does not describe exactly
    /// `buf.len()` elements.
    pub fn new(buf: Vec<T>, shape: Vec<usize>) -> (r: Result<CpuTensor<'a, T>>)
        ensures
            r is Ok <==> extents_positive(shape@) && suffix_product(shape@, 0) == buf@.len(),
            r matches Ok(t) ==> {
                &&& t.wf()
                &&& t@ == buf@
                &&& t.spec_shape() == shape@
                &&& t.spec_is_contiguous()
                &&& t.spec_is_owned()
            },
            r matches Err(e) ==> e.kind == ErrorKind::TensorShape && e.left@ == shape@
                && e.right@.len() == 0,
    {
        let count = buf.len();
        let strider = match TensorStrider::new(shape) {
            Ok(s) => s,
            Err(e) => {
                return Err(e);
            },
        };
        if strider.len() != count {
            return Err(Error::of_shape(ErrorKind::TensorShape, strider.shape()));
        }
        proof {
            lemma_row_major_span(strider.spec_shape(), strider.spec_strides(), 0);
        }
        Ok(CpuTensor { buf: CpuTensorBuf::from_vec(buf), strider })
    }

    /// A densely packed owned tensor with every element equal to `fill`.
    ///
    /// Fails when the shape has a zero extent or its element count does not
    /// fit a machine integer.
    pub fn zeros(shape: Vec<usize>, fill: T) -> (r: Result<CpuTensor<'a, T>>)
        ensures
            r is Ok <==> extents_positive(shape@) && suffix_product(shape@, 0) <= usize::MAX,
            r matches Ok(t) ==> {
                &&& t.wf()
                &&& t@.len() == suffix_product(shape@, 0)
                &&& forall|i: int| 0 <= i < t@.len() ==> t@[i] == fill
                &&& t.spec_shape() == shape@
                &&& t.spec_is_contiguous()
                &&& t.spec_is_owned()
            },
            r matches Err(e) ==> e.kind == ErrorKind::TensorShape && e.left@ == shape@
                && e.right@.len() == 0,
    {
        let strider = match TensorStrider::new(shape) {
            Ok(s) => s,
            Err(e) => {
                return Err(e);
            },
        };
        let n = strider.len();
        let mut buf: Vec<T> = Vec::new();
        let mut i: usize = 0;
        while i < n
            invariant
                i <= n,
                buf@.len() == i,
                forall|j: int| 0 <= j < i ==> buf@[j] == fill,
            decreases n - i,
        {
            buf.push(fill);
            i = i + 1;
        }
        proof {
            lemma_row_major_span(strider.spec_shape(), strider.spec_strides(), 0);
        }
        Ok(CpuTensor { buf: CpuTensorBuf::from_vec(buf), strider })
    }

    /// A view of `buf` through an arbitrary descriptor.
    ///
    /// Fails when the descriptor addresses an element outside `buf`.
    pub fn with_strider(buf: CpuTensorBuf<'a, T>, strider: TensorStrider) -> (r: Result<
        CpuTensor<'a, T>,
    >)
        requires
            strider.wf(),
        ensures
            r is Ok <==> strider.spec_span() < buf@.len(),
            r matches Ok(t) ==> {
                &&& t.wf()
                &&& t@ == buf@
                &&& t.spec_strider() == strider
                &&& t.spec_is_owned() == buf.spec_is_owned()
            },
            r matches Err(e) ==> e.kind == ErrorKind::TensorShape && e.left@ == strider.spec_shape()
                && e.right@ == strider.spec_strides(),
    {
        if !Self::span_fits(&strider, buf.len()) {
            return Err(Error::of_shapes(ErrorKind::TensorShape, strider.shape(), strider.strides()));
        }
        Ok(CpuTensor { buf, strider })
    }

    fn span_fits(strider: &TensorStrider, len: usize) -> (r: bool)
        requires
            strider.wf(),
        ensures
            r == (strider.spec_span() < len),
    {
        strider.span() < len
    }

    /// Shape and strides of the tensor.
    pub fn strider(&self) -> (s: &TensorStrider)
        ensures
            *s == self.spec_strider(),
    {
        &self.strider
    }

    /// The extents, one per axis.
    pub fn shape(&self) -> (s: &Vec<usize>)
        ensures
            s@ == self.spec_shape(),
    {
        self.strider.shape()
    }

    /// The strides, one per axis, in elements.
    pub fn strides(&self) -> (s: &Vec<usize>)
        ensures
            s@ == self.spec_strides(),
    {
        self.strider.strides()
    }

    /// Number of elements the tensor addresses.
    pub fn len(&self) -> (n: usize)
        requires
            self.wf(),
        ensures
            n == self.spec_strider().spec_len(),
    {
        self.strider.len()
    }

    /// Whether the layout is densely packed and row-major.
    pub fn is_contiguous(&self) -> (r: bool)
        requires
            self.wf(),
        ensures
            r == self.spec_is_contiguous(),
    {
        self.strider.is_contiguous()
    }

    /// Whether the storage belongs to the value and may be written.
    pub fn is_owned(&self) -> (r: bool)
        ensures
            r == self.spec_is_owned(),
    {
        self.buf.is_owned()
    }

    /// The underlying storage, in storage order.
    pub fn buf(&self) -> (s: &[T])
        ensures
            s@ == self@,
    {
        self.buf.iter()
    }

    /// The underlying storage of an owned tensor, for writing in place. The
    /// elements can be replaced; their number stays.
    pub fn buf_mut(&mut self) -> (s: &mut [T])
        requires
            old(self).spec_is_owned(),
        ensures
            s@ == old(self)@,
            final(self)@ == final(s)@,
            final(self).spec_is_owned(),
            final(self).spec_strider() == old(self).spec_strider(),
    {
        self.buf.iter_mut()
    }

    /// The elements of a densely packed tensor in logical order.
    pub fn iter(&self) -> (s: &[T])
        requires
            self.wf(),
            self.spec_is_contiguous(),
        ensures
            s@ == self@.take(self.spec_strider().spec_len() as int),
    {
        let n = self.strider.len();
        proof {
            lemma_row_major_span(self.strider.spec_shape(), self.strider.spec_strides(), 0);
        }
        let all = self.buf.iter();
        let s = vstd::slice::slice_subrange(all, 0, n);
        assert(s@ =~= self@.take(n as int));
        s
    }
}


impl<'a, T: Copy> CpuTensor<'a, T> {
    /// The element at row-major position `i`, whatever the layout.
    pub fn at(&self, i: usize) -> (x: T)
        requires
            self.wf(),
        ensures
            0 <= self.spec_strider().spec_offset_of(i as int) < self@.len(),
            x == self@[self.spec_strider().spec_offset_of(i as int)],
    {
        let off = self.strider.offset_of(i);
        self.buf.at_unchecked(off)
    }

    /// The elements in row-major order, whatever the layout.
    pub fn to_vec(&self) -> (v: Vec<T>)
        requires
            self.wf(),
        ensures
            v@.len() == self.spec_strider().spec_len(),
            forall|i: int|
                0 <= i < v@.len() ==> #[trigger] v@[i] == self@[self.spec_strider().spec_offset_of(
                    i,
                )],
    {
        let n = self.strider.len();
        let mut v: Vec<T> = Vec::new();
        let mut i: usize = 0;
        while i < n
            invariant
                self.wf(),
                i <= n,
                v@.len() == i,
                forall|t: int|
                    0 <= t < i ==> #[trigger] v@[t] == self@[self.spec_strider().spec_offset_of(t)],
            decreases n - i,
        {
            v.push(self.at(i));
            i = i + 1;
        }
        v
    }

    /// The elements met by walking along `axis` from the index `origin` to
    /// the end of that axis: one element per step, each one stride after
    /// the one before.
    ///
    /// Fails when the origin is no index of the tensor or the axis is none
    /// of its axes.
    pub fn iter_axis(&self, origin: &[usize], axis: usize) -> (r: Result<Vec<T>>)
        requires
            self.wf(),
        ensures
            r is Ok <==> index_in_shape(origin@, self.spec_shape()) && axis
                < self.spec_shape().len(),
            r matches Ok(v) ==> {
                &&& v@.len() == self.spec_shape()[axis as int] - origin@[axis as int]
                &&& v@ == strided(
                    self@,
                    self.spec_strider().spec_at(origin@),
                    self.spec_strides()[axis as int] as int,
                    v@.len(),
                )
            },
            r matches Err(e) ==> e.kind == ErrorKind::TensorShape && e.left@ == self.spec_shape()
                && e.right@.len() == 0,
    {
        let base = match self.strider.at(origin) {
            Ok(off) => off,
            Err(e) => {
                return Err(e);
            },
        };
        if axis >= self.strider.dims() {
            return Err(Error::of_shape(ErrorKind::TensorShape, self.strider.shape()));
        }
        let count = self.strider.shape()[axis] - origin[axis];
        let step = self.strider.strides()[axis];
        let data = self.buf.iter();
        let len = data.len();
        proof {
            let shape = self.spec_shape();
            let strides = self.spec_strides();
            let last = (shape[axis as int] - 1) as usize;
            let end = origin@.update(axis as int, last);
            lemma_offset_along_axis(origin@, strides, axis as int, last, 0);
            assert(index_in_shape(end, shape));
            lemma_offset_within_span(end, shape, strides, 0);
            assert(base + (count - 1) * step <= self.spec_strider().spec_span());
        }
        let mut v: Vec<T> = Vec::new();
        let mut k: usize = 0;
        while k < count
            invariant
                k <= count,
                count >= 1,
                len == data@.len(),
                data@ == self@,
                base + (count - 1) * step < len,
                v@.len() == k,
                forall|t: int| 0 <= t < k ==> #[trigger] v@[t] == data@[base + t * step],
            decreases count - k,
        {
            proof {
                lemma_strided_in_bounds(base as int, step as int, count as int, k as int);
                lemma_strided_in_bounds(0, step as int, count as int, k as int);
            }
            v.push(data[base + k * step]);
            k = k + 1;
        }
        assert(v@ =~= strided(self@, base as int, step as int, v@.len()));
        Ok(v)
    }
}

impl<'a, T: Copy> CpuTensor<'a, T> {
    /// A densely packed, owned copy of the tensor: the same shape, the
    /// elements in row-major order.
    pub fn contiguous(&self) -> (r: CpuTensor<'a, T>)
        requires
            self.wf(),
        ensures
            r.wf(),
            r.spec_is_owned(),
            r.spec_is_contiguous(),
            r.spec_shape() == self.spec_shape(),
            r@.len() == self.spec_strider().spec_len(),
            forall|i: int|
                0 <= i < r@.len() ==> #[trigger] r@[i] == self@[self.spec_strider().spec_offset_of(
                    i,
                )],
    {
        let buf = self.to_vec();
        match CpuTensor::new(buf, crate::error::copy_shape(self.strider.shape())) {
            Ok(t) => t,
            Err(_) => unreached(),
        }
    }
}

} // verus!
