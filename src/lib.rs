//! A single-pair limit-order matching engine with price-time priority.
//!
//! Prices and quantities are fixed-point integers: a price is a count of price
//! ticks and a quantity a count of lots, at a scale the caller picks.
pub mod broker;
pub mod domain;
pub mod laws;
pub mod market;
pub mod order_queues;
pub mod orderbook;
pub mod orders;
pub mod validation;

pub use broker::{parse_asset, BrokerAsset};
pub use domain::{AssetTag, Order, OrderSide, OrderType};
pub use market::{Asset, Market, TokenTransfer};
pub use orderbook::{Failed, OrderProcessingResult, Orderbook, Success};
pub use orders::{
    amend_order_request, limit_order_cancel_request, new_limit_order_request,
    new_market_order_request, OrderRequest,
};
pub use order_queues::{OrderIndex, OrderQueue};
pub use validation::{OrderRequestValidator, ValidationError};
