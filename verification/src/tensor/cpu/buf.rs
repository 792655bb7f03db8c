use vstd::prelude::*;
use vstd::slice::slice_to_vec;

verus! {

/// Flat storage of a tensor's elements: either a vector the tensor owns, or
/// a slice lent by someone else. Only owned storage can be written.
#[derive(Debug)]
pub enum CpuTensorBuf<'a, T: Copy> {
    Owned(Vec<T>),
    Flat(&'a [T]),
}

impl<'a, T: Copy> View for CpuTensorBuf<'a, T> {
    type V = Seq<T>;

    open spec fn view(&self) -> Seq<T> {
        match self {
            CpuTensorBuf::Owned(buf) => buf@,
            CpuTensorBuf::Flat(buf) => buf@,
        }
    }
}

impl<'a, T: Copy> CpuTensorBuf<'a, T> {
    /// Whether the storage belongs to the value and may be written.
    pub open spec fn spec_is_owned(&self) -> bool {
        self is Owned
    }

    /// The element at `pos`.
    pub fn at_unchecked(&self, pos: usize) -> (x: T)
        requires
            pos < self@.len(),
        ensures
            x == self@[pos as int],
    {
        match self {
            CpuTensorBuf::Owned(buf) => buf[pos],
            CpuTensorBuf::Flat(buf) => buf[pos],
        }
    }

    /// Whether the storage belongs to the value and may be written.
    pub fn is_owned(&self) -> (r: bool)
        ensures
            r == self.spec_is_owned(),
    {
        match self {
            CpuTensorBuf::Owned(_) => true,
            _ => false,
        }
    }

    /// Number of elements.
    pub fn len(&self) -> (n: usize)
        ensures
            n == self@.len(),
    {
        match self {
            CpuTensorBuf::Owned(buf) => buf.len(),
            CpuTensorBuf::Flat(buf) => buf.len(),
        }
    }

    /// The elements in storage order.
    pub fn iter(&self) -> (s: &[T])
        ensures
            s@ == self@,
    {
        match self {
            CpuTensorBuf::Owned(buf) => buf.as_slice(),
            CpuTensorBuf::Flat(buf) => buf,
        }
    }

    /// Write access to the elements of an owned buffer. The elements can be
    /// replaced; their number stays.
    pub fn iter_mut(&mut self) -> (s: &mut [T])
        requires
            old(self).spec_is_owned(),
        ensures
            s@ == old(self)@,
            final(self).spec_is_owned(),
            final(self)@ == final(s)@,
    {
        match self {
            CpuTensorBuf::Owned(buf) => buf.as_mut_slice(),
            CpuTensorBuf::Flat(_) => unreached(),
        }
    }

    /// Takes ownership of a vector of elements.
    pub fn from_vec(buf: Vec<T>) -> (r: Self)
        ensures
            r.spec_is_owned(),
            r@ == buf@,
    {
        CpuTensorBuf::Owned(buf)
    }

    /// Borrows a slice of elements.
    pub fn from_slice(buf: &'a [T]) -> (r: Self)
        ensures
            !r.spec_is_owned(),
            r@ == buf@,
    {
        CpuTensorBuf::Flat(buf)
    }

    /// An owned copy of the elements.
    pub fn to_vec(&self) -> (v: Vec<T>)
        ensures
            v@ == self@,
    {
        slice_to_vec(self.iter())
    }
}


impl<'a, T: Copy> Clone for CpuTensorBuf<'a, T> {
    /// Owned storage is copied; lent storage stays lent.
    fn clone(&self) -> (r: Self)
        ensures
            r@ == self@,
            r.spec_is_owned() == self.spec_is_owned(),
    {
        match self {
            CpuTensorBuf::Owned(buf) => CpuTensorBuf::Owned(slice_to_vec(buf.as_slice())),
            CpuTensorBuf::Flat(buf) => CpuTensorBuf::Flat(buf),
        }
    }
}


impl<'a, T: Copy> From<Vec<T>> for CpuTensorBuf<'a, T> {
    fn from(buf: Vec<T>) -> (r: Self) {
        CpuTensorBuf::Owned(buf)
    }
}

impl<'a, T: Copy> vstd::std_specs::convert::FromSpecImpl<Vec<T>> for CpuTensorBuf<'a, T> {
    open spec fn obeys_from_spec() -> bool {
        true
    }

    open spec fn from_spec(buf: Vec<T>) -> Self {
        CpuTensorBuf::Owned(buf)
    }
}

impl<'a, T: Copy> From<&'a [T]> for CpuTensorBuf<'a, T> {
    fn from(buf: &'a [T]) -> (r: Self) {
        CpuTensorBuf::Flat(buf)
    }
}

impl<'a, T: Copy> vstd::std_specs::convert::FromSpecImpl<&'a [T]> for CpuTensorBuf<'a, T> {
    open spec fn obeys_from_spec() -> bool {
        true
    }

    open spec fn from_spec(buf: &'a [T]) -> Self {
        CpuTensorBuf::Flat(buf)
    }
}

} // verus!
