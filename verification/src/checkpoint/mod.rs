pub mod codec;
pub mod writer;
