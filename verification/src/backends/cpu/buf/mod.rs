pub mod api;
pub mod buf_f16;
pub mod buf_f32;
pub mod buf_q8_0;
pub mod buf_quant;

pub use api::CpuTensorBuf;
pub use buf_q8_0::{BlockBufIterQ8_0, BlockQ8_0, QuantBufQ8_0};
pub use buf_quant::{QuantBuf, QuantBufQ4_0, QuantBufQ4_1, QuantBufQ8_1};
