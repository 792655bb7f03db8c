pub mod batch_matmul;
pub mod matmul_vec;
pub mod scalar;
pub mod silu;

pub use batch_matmul::batch_matmul;
pub use matmul_vec::matmul_vec;
pub use scalar::{binary_inplace, unary_inplace};
pub use silu::silu_inplace;
