use vstd::prelude::*;

verus! {

/// Why a trading computation did not produce a value.
#[derive(Clone, Debug, PartialEq, Eq)]
pub enum TradeError {
    /// A caller-supplied value breaks a precondition (non-positive price or
    /// notional, a tolerance outside (0, 1), a non-positive lot size).
    InvalidInput,
    /// The order book has no resting level on the requested side.
    EmptyBook,
    /// The book's best ask is below its best bid.
    CrossedBook,
    /// A number reported by the exchange could not be read as a positive
    /// (or, for balances, any) decimal.
    MalformedNumber,
    /// The exact result does not fit the 128-bit decimal representation.
    OutOfRange,
    /// The exchange could not be reached; carries the transport's message.
    TransportFailure(String),
}

} // verus!
