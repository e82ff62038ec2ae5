//! Client of a federated prediction market.
//!
//! The library holds what the client decides on its own: which keys it
//! uses, how a sell order is covered, what its local cache holds and when the
//! cache is out of date, what a settled transaction changes, which payout the
//! payout controls have agreed on, and how lost orders are found again.
//! Talking to the federation is left to the caller.
pub mod cache;
pub mod candlesticks;
pub mod id_map;
pub mod keyed_list;
pub mod markets;
pub mod module;
pub mod payout;
pub mod recovery;
pub mod identity;
pub mod sourcing;
pub mod states;
pub mod sync;
pub mod transaction;
pub mod types;

pub use module::PredictionMarketsClientInit;
pub use module::PredictionMarketsClientModule;
pub use states::PredictionMarketState;
pub use states::PredictionMarketsStateMachine;
