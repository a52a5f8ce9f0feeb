//! A single-instrument limit-order-book matching engine.
pub mod asset;
pub mod decimal;
pub mod domain;
pub mod order_queues;
pub mod orderbook;
pub mod orders;
pub mod validation;
