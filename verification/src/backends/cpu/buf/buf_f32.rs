use crate::accumulate::{lemma_len_fits, mac_fold, mac_strided, strided, total3};
use vstd::prelude::*;

verus! {

/// Dot product of `len` single-precision scalars of `a` from `a_offset`
/// with `len` scalars of `b` from `b_offset`, accumulated pair by pair
/// through `step` in ascending order.
pub fn vec_dot_f32_f32<F: Fn(u32, u32, u32) -> u32>(
    a: &[u32],
    a_offset: usize,
    b: &[u32],
    b_offset: usize,
    len: usize,
    zero: u32,
    step: &F,
) -> (out: u32)
    requires
        total3(*step),
        a_offset + len <= a@.len(),
        b_offset + len <= b@.len(),
    ensures
        mac_fold(
            *step,
            zero,
            strided(a@, a_offset as int, 1, len as nat),
            strided(b@, b_offset as int, 1, len as nat),
            out,
        ),
{
    proof {
        lemma_len_fits(a);
        lemma_len_fits(b);
    }
    mac_strided(step, zero, a, a_offset, 1, b, b_offset, 1, len)
}

/// The sign bit of a single-precision bit pattern.
pub const SIGN_BIT: u32 = 0x8000_0000;

/// Number of entries of the exponential table: one per 16-bit key.
pub const EXP_TABLE_LEN: usize = 65536;

/// The bit pattern of the negation of a single-precision scalar: the same
/// bits with the sign flipped.
pub open spec fn negated(x: u32) -> u32 {
    if x >= SIGN_BIT {
        (x - SIGN_BIT) as u32
    } else {
        (x + SIGN_BIT) as u32
    }
}

/// The key under which the table keeps the exponential for `x`: the upper
/// 16 bits of the bit pattern.
pub open spec fn exp_key(x: u32) -> int {
    x as int / 65536
}

/// The bit pattern a key stands for: the key in the upper 16 bits, zeros
/// below.
pub open spec fn key_point(key: int) -> u32 {
    (key * 65536) as u32
}

/// The negation of a single-precision scalar, on its bit pattern.
pub fn negate(x: u32) -> (r: u32)
    ensures
        r == negated(x),
        negated(r) == x,
{
    if x >= SIGN_BIT {
        x - SIGN_BIT
    } else {
        x + SIGN_BIT
    }
}

/// A table of exponentials, filled on demand.
///
/// The table has one entry for each 16-bit key. The entry for a key is the
/// exponential of the scalar whose bit pattern is the key followed by 16
/// zero bits, so a lookup answers for the argument truncated to its upper
/// 16 bits. The exponential itself is the function the table was made with.
pub struct ExpCache<F> {
    table: Vec<u32>,
    filled: Vec<bool>,
    exp: F,
}

impl<F: Fn(u32) -> u32> ExpCache<F> {
    /// The function the table was made with.
    pub closed spec fn spec_exp(&self) -> F {
        self.exp
    }

    /// Whether the entry for `key` has been computed.
    pub closed spec fn spec_filled(&self, key: int) -> bool {
        0 <= key < self.filled@.len() && self.filled@[key]
    }

    /// The entry for `key`.
    pub closed spec fn spec_entry(&self, key: int) -> u32 {
        self.table@[key]
    }

    /// The table is complete in size and every computed entry is a value
    /// the exponential can return for the key's bit pattern.
    pub closed spec fn wf(&self) -> bool {
        &&& self.table@.len() == EXP_TABLE_LEN
        &&& self.filled@.len() == EXP_TABLE_LEN
        &&& forall|x: u32| call_requires(self.exp, (x,))
        &&& forall|key: int|
            0 <= key < EXP_TABLE_LEN && #[trigger] self.filled@[key] ==> call_ensures(
                self.exp,
                (key_point(key),),
                self.table@[key],
            )
    }

    /// An empty table for the exponential `exp`.
    pub fn new(exp: F) -> (c: Self)
        requires
            forall|x: u32| call_requires(exp, (x,)),
        ensures
            c.wf(),
            c.spec_exp() == exp,
            forall|key: int| !c.spec_filled(key),
    {
        let mut table: Vec<u32> = Vec::new();
        let mut filled: Vec<bool> = Vec::new();
        let mut i: usize = 0;
        while i < EXP_TABLE_LEN
            invariant
                i <= EXP_TABLE_LEN,
                table@.len() == i,
                filled@.len() == i,
                forall|k: int| 0 <= k < i ==> !filled@[k],
            decreases EXP_TABLE_LEN - i,
        {
            table.push(0);
            filled.push(false);
            i = i + 1;
        }
        ExpCache { table, filled, exp }
    }

    /// The exponential for `x`, to the precision of the table: a value the
    /// exponential can return for `x` truncated to its upper 16 bits.
    ///
    /// The first lookup under a key computes the entry; later ones return
    /// the same entry.
    pub fn get(&mut self, x: u32) -> (r: u32)
        requires
            old(self).wf(),
        ensures
            final(self).wf(),
            final(self).spec_exp() == old(self).spec_exp(),
            call_ensures(old(self).spec_exp(), (key_point(exp_key(x)),), r),
            final(self).spec_filled(exp_key(x)),
            final(self).spec_entry(exp_key(x)) == r,
            old(self).spec_filled(exp_key(x)) ==> r == old(self).spec_entry(exp_key(x)),
            forall|key: int|
                old(self).spec_filled(key) ==> final(self).spec_filled(key)
                    && final(self).spec_entry(key) == old(self).spec_entry(key),
    {
        let key = (x / 65536) as usize;
        if self.filled[key] {
            return self.table[key];
        }
        let point = (key * 65536) as u32;
        let v = (self.exp)(point);
        self.table.set(key, v);
        self.filled.set(key, true);
        v
    }
}

} // verus!
