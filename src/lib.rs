//! A limit order book with exact fixed-point prices, and a matching engine
//! that routes orders to one book per trading pair.

pub mod engine;
pub mod error;
pub mod orderbook;
pub mod price;
