use vstd::prelude::*;

verus! {

/// The recoverable conditions that the book and the engine report to callers.
#[derive(Debug, Clone, Copy, PartialEq, Eq, Structural)]
pub enum MatchError {
    /// A price whose fractional part is not below the scaler, or whose
    /// value in ticks does not fit in a `u64`.
    InvalidPrice,
    /// A market fill asked for more than rests at the price level.
    InsufficientLiquidity { requested: u64, available: u128 },
    /// A market fill targets a price with no resting level on the side it needs.
    UnknownPriceLevel,
    /// An order was placed against a trading pair with no registered book.
    UnknownMarket,
    /// A trading pair was registered twice.
    DuplicateMarket,
}

} // verus!
