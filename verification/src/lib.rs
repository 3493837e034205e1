//! A limit order book with price-time priority matching.
//!
//! Prices and sizes are exact fixed-point numbers. Every price level keeps its resting orders
//! in arrival order, and an incoming order is matched against the best-priced level first and,
//! within a level, against the oldest order first.

pub mod book_view;
pub mod decimal;
pub mod exchange;
pub mod inbound_http_server;
pub mod inbound_msg;
pub mod inbound_server;
pub mod invariants;
pub mod ladder;
pub mod linked_orders;
pub mod order_matcher;
pub mod order_matcher_fifo;
pub mod orderbook;
pub mod page;
pub mod symbol;
pub mod text;
pub mod wire;

use vstd::prelude::*;

verus! {

/// Identifier of an order, unique across all books.
pub type OrderId = u64;

} // verus!
