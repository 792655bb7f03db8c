use vstd::prelude::*;

verus! {

/// Narrows single-precision scalars to half precision, element by element,
/// through `narrow`.
pub fn quantize_f32_f16<N: Fn(u32) -> u16>(data: &[u32], narrow: &N) -> (out: Vec<u16>)
    requires
        forall|x: u32| call_requires(*narrow, (x,)),
    ensures
        out@.len() == data@.len(),
        forall|i: int| 0 <= i < out@.len() ==> call_ensures(*narrow, (data@[i],), #[trigger] out@[i]),
{
    let len = data.len();
    let mut out: Vec<u16> = Vec::new();
    let mut i: usize = 0;
    while i < len
        invariant
            i <= len,
            len == data@.len(),
            forall|x: u32| call_requires(*narrow, (x,)),
            out@.len() == i,
            forall|t: int| 0 <= t < i ==> call_ensures(*narrow, (data@[t],), #[trigger] out@[t]),
        decreases len - i,
    {
        out.push(narrow(data[i]));
        i = i + 1;
    }
    out
}

} // verus!
