use crate::backends::cpu::buf::api::CpuTensorBuf;
use crate::backends::cpu::buf::buf_f32::{exp_key, key_point, negated, ExpCache};
use crate::backends::cpu::buf::buf_f32::negate;
use crate::backends::cpu::primitives::scalar::not_writable_kind;
use crate::error::{Error, ErrorKind, Result};
use crate::gguf::GGMLType;
use vstd::prelude::*;

verus! {

/// `after` is what `gate` makes of `before` and a value the exponential of
/// the table can return for the negation of `before`, truncated to the
/// precision of the table.
pub open spec fn silu_of<E: Fn(u32) -> u32, G: Fn(u32, u32) -> u32>(
    exp: E,
    gate: G,
    before: u32,
    after: u32,
) -> bool {
    exists|e: u32|
        call_ensures(exp, (key_point(exp_key(negated(before))),), e) && #[trigger] call_ensures(
            gate,
            (before, e),
            after,
        )
}

/// Sigmoid-weighted linear unit in place on an owned `F32` buffer.
///
/// For each element `x`, the exponential of `-x` is looked up in the table
/// and `gate` combines `x` with it. A buffer of another format is rejected
/// as a wrong format, one that cannot be written as a wrong operand; in
/// both cases the buffer is left as it was.
pub fn silu_inplace<E: Fn(u32) -> u32, G: Fn(u32, u32) -> u32>(
    cache: &mut ExpCache<E>,
    buf: &mut CpuTensorBuf<'_>,
    gate: &G,
) -> (r: Result<()>)
    requires
        old(cache).wf(),
        forall|x: u32, e: u32| call_requires(*gate, (x, e)),
    ensures
        final(cache).wf(),
        final(cache).spec_exp() == old(cache).spec_exp(),
        final(buf).spec_dtype() == old(buf).spec_dtype(),
        final(buf).spec_is_owned() == old(buf).spec_is_owned(),
        r is Ok <==> old(buf).spec_dtype() == GGMLType::F32 && old(buf).spec_is_owned(),
        r is Ok ==> {
            &&& final(buf).spec_f32().len() == old(buf).spec_f32().len()
            &&& forall|i: int|
                0 <= i < old(buf).spec_f32().len() ==> silu_of(
                    old(cache).spec_exp(),
                    *gate,
                    old(buf).spec_f32()[i],
                    #[trigger] final(buf).spec_f32()[i],
                )
        },
        r matches Err(e) ==> *final(buf) == *old(buf) && e.kind == not_writable_kind(old(buf))
            && e.spec_is_bare(),
{
    if buf.dtype() != GGMLType::F32 {
        return Err(Error::bare(ErrorKind::TensorDtype));
    }
    if !buf.is_owned() {
        return Err(Error::bare(ErrorKind::TensorShape));
    }
    let ghost exp = cache.spec_exp();
    let ghost before = buf.spec_f32();
    let data = buf.as_f32_mut();
    let n = data.len();
    let mut i: usize = 0;
    while i < n
        invariant
            cache.wf(),
            cache.spec_exp() == exp,
            forall|x: u32, e: u32| call_requires(*gate, (x, e)),
            i <= n,
            n == data@.len(),
            n == before.len(),
            forall|t: int| 0 <= t < i ==> silu_of(exp, *gate, before[t], #[trigger] data@[t]),
            forall|t: int| i <= t < n ==> #[trigger] data@[t] == before[t],
        decreases n - i,
    {
        let x = data[i];
        let e = cache.get(negate(x));
        let v = gate(x, e);
        data[i] = v;
        proof {
            assert(call_ensures(exp, (key_point(exp_key(negated(x))),), e) && call_ensures(
                *gate,
                (x, e),
                v,
            ));
        }
        i = i + 1;
    }
    Ok(())
}

} // verus!
