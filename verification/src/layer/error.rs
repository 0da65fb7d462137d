//! Errors raised while parsing, serializing or finalizing a layer.
use vstd::prelude::*;

verus! {

/// Why a layer could not be parsed, serialized or finalized.
#[derive(Debug, Clone, Copy, PartialEq, Eq, Structural)]
pub enum LayerError {
    /// The input ended inside a field; the payload is the size in bits of that field.
    Incomplete(usize),
    /// The TCP data offset is smaller than the five words of the fixed header.
    InvalidTcpOffset,
    /// A TCP option length field is too small to cover the option's kind and length bytes.
    InvalidOptionLength,
    /// A TCP option extends past the header length given by the data offset.
    OptionOverrun,
    /// A field holds a value wider than its bit width on the wire.
    FieldOverflow,
    /// A length computed while finalizing does not fit the field that carries it.
    LengthOverflow,
    /// The header length in 32-bit words does not fit the data offset field.
    OffsetOverflow,
}

} // verus!
