use crate::backends::cpu::buf::api::CpuTensorBuf;
use crate::error::{Error, ErrorKind, Result};
use crate::gguf::GGMLType;
use vstd::prelude::*;

verus! {

/// The error a buffer that is no owned `F32` buffer is rejected with: a
/// wrong format where it holds another format, a wrong operand where it
/// cannot be written.
pub open spec fn not_writable_kind(buf: &CpuTensorBuf<'_>) -> ErrorKind {
    if buf.spec_dtype() != GGMLType::F32 {
        ErrorKind::TensorDtype
    } else {
        ErrorKind::TensorShape
    }
}

/// Replaces every element `x` of an owned `F32` buffer by `f(x)`.
///
/// This is the shape of the activation functions, the Gaussian error linear
/// unit among them. Another buffer is rejected and left as it was.
pub fn unary_inplace<F: Fn(u32) -> u32>(buf: &mut CpuTensorBuf<'_>, f: &F) -> (r: Result<()>)
    requires
        forall|x: u32| call_requires(*f, (x,)),
    ensures
        final(buf).spec_dtype() == old(buf).spec_dtype(),
        final(buf).spec_is_owned() == old(buf).spec_is_owned(),
        r is Ok <==> old(buf).spec_dtype() == GGMLType::F32 && old(buf).spec_is_owned(),
        r is Ok ==> {
            &&& final(buf).spec_f32().len() == old(buf).spec_f32().len()
            &&& forall|i: int|
                0 <= i < old(buf).spec_f32().len() ==> call_ensures(
                    *f,
                    (old(buf).spec_f32()[i],),
                    #[trigger] final(buf).spec_f32()[i],
                )
        },
        r matches Err(e) ==> *final(buf) == *old(buf) && e.kind == not_writable_kind(old(buf))
            && e.spec_is_bare(),
{
    if buf.dtype() != GGMLType::F32 {
        return Err(Error::bare(ErrorKind::TensorDtype));
    }
    if !buf.is_owned() {
        return Err(Error::bare(ErrorKind::TensorShape));
    }
    let ghost before = buf.spec_f32();
    let data = buf.as_f32_mut();
    let n = data.len();
    let mut i: usize = 0;
    while i < n
        invariant
            forall|x: u32| call_requires(*f, (x,)),
            i <= n,
            n == data@.len(),
            n == before.len(),
            forall|t: int| 0 <= t < i ==> call_ensures(*f, (before[t],), #[trigger] data@[t]),
            forall|t: int| i <= t < n ==> #[trigger] data@[t] == before[t],
        decreases n - i,
    {
        let v = f(data[i]);
        data[i] = v;
        i = i + 1;
    }
    Ok(())
}

/// Replaces every element `a[i]` of an owned `F32` buffer by
/// `op(a[i], b[i])`, for an `F32` buffer `b` with as many elements.
///
/// Sum, product and quotient are of this shape. Other buffers are rejected
/// and `a` is left as it was: a wrong format or a buffer that cannot be
/// written as for a unary function, a different number of elements as a
/// wrong operand.
pub fn binary_inplace<F: Fn(u32, u32) -> u32>(
    a: &mut CpuTensorBuf<'_>,
    b: &CpuTensorBuf<'_>,
    op: &F,
) -> (r: Result<()>)
    requires
        forall|x: u32, y: u32| call_requires(*op, (x, y)),
    ensures
        final(a).spec_dtype() == old(a).spec_dtype(),
        final(a).spec_is_owned() == old(a).spec_is_owned(),
        r is Ok <==> {
            &&& old(a).spec_dtype() == GGMLType::F32
            &&& old(a).spec_is_owned()
            &&& b.spec_dtype() == GGMLType::F32
            &&& b.spec_f32().len() == old(a).spec_f32().len()
        },
        r is Ok ==> {
            &&& final(a).spec_f32().len() == old(a).spec_f32().len()
            &&& forall|i: int|
                0 <= i < old(a).spec_f32().len() ==> call_ensures(
                    *op,
                    (old(a).spec_f32()[i], b.spec_f32()[i]),
                    #[trigger] final(a).spec_f32()[i],
                )
        },
        r matches Err(e) ==> {
            &&& *final(a) == *old(a)
            &&& e.spec_is_bare()
            &&& e.kind == (if old(a).spec_dtype() != GGMLType::F32 || b.spec_dtype()
                != GGMLType::F32 {
                ErrorKind::TensorDtype
            } else {
                ErrorKind::TensorShape
            })
        },
{
    if a.dtype() != GGMLType::F32 || b.dtype() != GGMLType::F32 {
        return Err(Error::bare(ErrorKind::TensorDtype));
    }
    let from = b.as_f32_ref();
    if !a.is_owned() || from.len() != a.as_f32_ref().len() {
        return Err(Error::bare(ErrorKind::TensorShape));
    }
    let ghost before = a.spec_f32();
    let data = a.as_f32_mut();
    let n = data.len();
    let mut i: usize = 0;
    while i < n
        invariant
            forall|x: u32, y: u32| call_requires(*op, (x, y)),
            i <= n,
            n == data@.len(),
            n == before.len(),
            n == from@.len(),
            forall|t: int|
                0 <= t < i ==> call_ensures(*op, (before[t], from@[t]), #[trigger] data@[t]),
            forall|t: int| i <= t < n ==> #[trigger] data@[t] == before[t],
        decreases n - i,
    {
        let v = op(data[i], from[i]);
        data[i] = v;
        i = i + 1;
    }
    Ok(())
}

} // verus!
