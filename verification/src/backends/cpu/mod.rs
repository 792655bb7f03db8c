pub mod buf;
pub mod primitives;
