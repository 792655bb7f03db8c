pub mod arithmetic;
pub mod cpu;
pub mod strider;
pub mod tensor;

pub use strider::TensorStrider;
pub use tensor::CpuTensor;
