pub mod buffer;
pub mod number;
pub mod text;
