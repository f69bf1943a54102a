//! The errors of the library.

use vstd::prelude::*;

verus! {

/// Why a chart computation was refused.
#[derive(Debug, Clone, Copy, PartialEq, Eq, Structural)]
pub enum ChartError {
    /// The caller's configuration cannot be used: an empty palette, an
    /// empty series, fewer than two ticks, a malformed hex color, or
    /// bounds given in the wrong order.
    InvalidConfiguration,
    /// The exact result does not fit the machine type that carries it.
    ArithmeticOverflow,
}

} // verus!
