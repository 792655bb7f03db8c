use vstd::prelude::*;

verus! {

/// What went wrong in a primitive.
#[derive(Clone, Copy, Debug, PartialEq, Eq, Structural)]
pub enum ErrorKind {
    /// Rank, extents, contiguity or ownership of an operand do not fit the
    /// operation.
    TensorShape,
    /// The requested element format is not available for the operation.
    TensorDtype,
    /// An offset into a block-quantized buffer is not on a block boundary.
    TensorAlignment,
}

/// A recoverable failure, with the shapes of the operands that caused it.
#[derive(Clone, Debug)]
pub struct Error {
    pub kind: ErrorKind,
    /// Shape of the first operand involved (empty where none applies).
    pub left: Vec<usize>,
    /// Shape of the second operand involved (empty where none applies).
    pub right: Vec<usize>,
}

impl Error {
    /// An error that concerns a single operand.
    pub fn of_shape(kind: ErrorKind, shape: &Vec<usize>) -> (e: Error)
        ensures
            e.kind == kind,
            e.left@ == shape@,
            e.right@.len() == 0,
    {
        Error { kind, left: copy_shape(shape), right: Vec::new() }
    }

    /// An error that concerns a pair of operands.
    pub fn of_shapes(kind: ErrorKind, left: &Vec<usize>, right: &Vec<usize>) -> (e: Error)
        ensures
            e.kind == kind,
            e.left@ == left@,
            e.right@ == right@,
    {
        Error { kind, left: copy_shape(left), right: copy_shape(right) }
    }

    /// The error names no shape. This is so where the operands are raw
    /// storage, which has none.
    pub open spec fn spec_is_bare(&self) -> bool {
        self.left@.len() == 0 && self.right@.len() == 0
    }

    /// An error that concerns no shape at all.
    pub fn bare(kind: ErrorKind) -> (e: Error)
        ensures
            e.kind == kind,
            e.spec_is_bare(),
    {
        Error { kind, left: Vec::new(), right: Vec::new() }
    }
}

/// An element-for-element copy of a list of extents.
pub fn copy_shape(shape: &Vec<usize>) -> (out: Vec<usize>)
    ensures
        out@ == shape@,
{
    let mut out: Vec<usize> = Vec::new();
    let mut i: usize = 0;
    while i < shape.len()
        invariant
            i <= shape.len(),
            out@ == shape@.take(i as int),
        decreases shape.len() - i,
    {
        out.push(shape[i]);
        assert(shape@.take(i as int).push(shape@[i as int]) =~= shape@.take(i + 1));
        i = i + 1;
    }
    assert(shape@.take(shape.len() as int) =~= shape@);
    out
}

pub type Result<T> = core::result::Result<T, Error>;

} // verus!
