use vstd::prelude::*;

verus! {

/// Why a literal could not be read or a rendering could not be produced.
#[derive(Debug, Clone, Copy, PartialEq, Eq, Structural)]
pub enum BitsError {
    /// The literal is not an unsigned 64-bit integer in the radix its prefix selects.
    Parse,
    /// The chunk width (carried) is not 1, 2 or 4.
    InvalidChunkWidth(u8),
    /// The signed width (carried) is not 8, 16, 32 or 64.
    InvalidBitWidth(u8),
}

} // verus!
