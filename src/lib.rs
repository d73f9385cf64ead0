pub mod error;
pub mod message;
pub mod point;
pub mod stream;
pub mod unknown;
pub mod varint;
pub mod wire;
