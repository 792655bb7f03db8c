use vstd::prelude::*;

verus! {

/// Element formats a tensor buffer can hold.
///
/// `F32` and `F16` store one scalar per element. The four block formats
/// store 32 elements per block as small integers next to a shared
/// half-precision scale and, for `Q8_1` and `Q4_1`, a second half-precision
/// word.
#[allow(non_camel_case_types)]
#[derive(Clone, Copy, Debug, PartialEq, Eq, Structural)]
pub enum GGMLType {
    F32,
    F16,
    Q8_0,
    Q8_1,
    Q4_0,
    Q4_1,
}

impl GGMLType {
    /// Whether values of this format are stored in shared-scale blocks.
    pub open spec fn spec_is_quantized(self) -> bool {
        self != GGMLType::F32 && self != GGMLType::F16
    }

    /// Elements per block; one for the plain formats.
    pub open spec fn spec_block_elems(self) -> nat {
        if self.spec_is_quantized() {
            32
        } else {
            1
        }
    }

    /// Bytes per block.
    pub open spec fn spec_block_bytes(self) -> nat {
        match self {
            GGMLType::F32 => 4,
            GGMLType::F16 => 2,
            GGMLType::Q8_0 => 34,
            GGMLType::Q8_1 => 36,
            GGMLType::Q4_0 => 18,
            GGMLType::Q4_1 => 20,
        }
    }

    /// Number of half-precision words at the head of a block.
    pub open spec fn spec_header_words(self) -> nat {
        match self {
            GGMLType::Q8_0 => 1,
            GGMLType::Q4_0 => 1,
            GGMLType::Q8_1 => 2,
            GGMLType::Q4_1 => 2,
            _ => 0,
        }
    }

    /// Whether a block packs two quants into each byte.
    pub open spec fn spec_is_packed(self) -> bool {
        self == GGMLType::Q4_0 || self == GGMLType::Q4_1
    }

    /// The format the right operand of a dot product must have when the
    /// left operand has this one.
    pub open spec fn spec_vec_dot_rhs(self) -> GGMLType {
        match self {
            GGMLType::F32 => GGMLType::F32,
            GGMLType::F16 => GGMLType::F16,
            GGMLType::Q8_0 => GGMLType::Q8_0,
            GGMLType::Q8_1 => GGMLType::Q8_1,
            GGMLType::Q4_0 => GGMLType::Q8_0,
            GGMLType::Q4_1 => GGMLType::Q8_1,
        }
    }

    /// Whether values of this format are stored in shared-scale blocks.
    #[verifier::when_used_as_spec(spec_is_quantized)]
    pub fn is_quantized(self) -> (r: bool)
        ensures
            r == self.spec_is_quantized(),
    {
        match self {
            GGMLType::F32 | GGMLType::F16 => false,
            _ => true,
        }
    }

    /// Elements per block; one for the plain formats.
    pub fn block_elems(self) -> (n: usize)
        ensures
            n == self.spec_block_elems(),
    {
        if self.is_quantized() {
            32
        } else {
            1
        }
    }

    /// Bytes per block.
    pub fn block_bytes(self) -> (n: usize)
        ensures
            n == self.spec_block_bytes(),
    {
        match self {
            GGMLType::F32 => 4,
            GGMLType::F16 => 2,
            GGMLType::Q8_0 => 34,
            GGMLType::Q8_1 => 36,
            GGMLType::Q4_0 => 18,
            GGMLType::Q4_1 => 20,
        }
    }

    /// Number of half-precision words at the head of a block.
    pub fn header_words(self) -> (n: usize)
        ensures
            n == self.spec_header_words(),
    {
        match self {
            GGMLType::Q8_0 => 1,
            GGMLType::Q4_0 => 1,
            GGMLType::Q8_1 => 2,
            GGMLType::Q4_1 => 2,
            _ => 0,
        }
    }

    /// Whether a block packs two quants into each byte.
    #[verifier::when_used_as_spec(spec_is_packed)]
    pub fn is_packed(self) -> (r: bool)
        ensures
            r == self.spec_is_packed(),
    {
        match self {
            GGMLType::Q4_0 | GGMLType::Q4_1 => true,
            _ => false,
        }
    }

    /// The format the right operand of a dot product must have when the left
    /// operand has this one.
    #[verifier::when_used_as_spec(spec_vec_dot_rhs)]
    pub fn vec_dot_rhs(self) -> (r: GGMLType)
        ensures
            r == self.spec_vec_dot_rhs(),
    {
        match self {
            GGMLType::F32 => GGMLType::F32,
            GGMLType::F16 => GGMLType::F16,
            GGMLType::Q8_0 => GGMLType::Q8_0,
            GGMLType::Q8_1 => GGMLType::Q8_1,
            GGMLType::Q4_0 => GGMLType::Q8_0,
            GGMLType::Q4_1 => GGMLType::Q8_1,
        }
    }
}

/// A block is its header words followed by its quants: one byte per quant
/// in the eight-bit formats, one byte per two quants in the four-bit ones.
pub proof fn lemma_block_bytes(t: GGMLType)
    requires
        t.spec_is_quantized(),
    ensures
        t.spec_is_packed() ==> t.spec_block_bytes() == 2 * t.spec_header_words() + 16,
        !t.spec_is_packed() ==> t.spec_block_bytes() == 2 * t.spec_header_words() + 32,
{
    match t {
        GGMLType::Q8_0 => {},
        GGMLType::Q8_1 => {},
        GGMLType::Q4_0 => {},
        GGMLType::Q4_1 => {},
        _ => {},
    }
}

/// The right-hand format of a dot product is a plain format for a plain
/// left-hand format and an eight-bit block format with as many header words
/// for a block format; asking for the right-hand format of a right-hand
/// format changes nothing.
pub proof fn lemma_vec_dot_rhs(t: GGMLType)
    ensures
        !t.spec_is_quantized() ==> t.spec_vec_dot_rhs() == t,
        t.spec_is_quantized() ==> {
            &&& t.spec_vec_dot_rhs().spec_is_quantized()
            &&& !t.spec_vec_dot_rhs().spec_is_packed()
            &&& t.spec_vec_dot_rhs().spec_header_words() == t.spec_header_words()
        },
        t.spec_vec_dot_rhs().spec_vec_dot_rhs() == t.spec_vec_dot_rhs(),
{
}

} // verus!
