//! Errors of encoding and decoding.
use vstd::prelude::*;

verus! {

/// Why an operation on messages failed.
#[derive(Clone, Copy, Debug, PartialEq, Eq, Structural)]
pub enum ProtobufError {
    /// The input does not follow the wire format: a truncated or
    /// overlong varint, a bad tag, an unknown wire type, or a payload or
    /// frame that runs past the end of its input.
    WireError,
    /// The field with this number is required by the schema and not set.
    MessageNotInitialized(u32),
}

pub type ProtobufResult<T> = Result<T, ProtobufError>;

} // verus!
