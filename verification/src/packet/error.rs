//! Errors raised while building, serializing or parsing a packet.
use crate::layer::LayerError;
use vstd::prelude::*;

verus! {

/// Why a packet could not be finalized, serialized or parsed.
#[derive(Debug, Clone, Copy, PartialEq, Eq, Structural)]
pub enum PacketError {
    /// A layer failed.
    Layer(LayerError),
    /// Parsing stopped before the end of the input; the number of bytes left over.
    TrailingData(usize),
}

} // verus!
