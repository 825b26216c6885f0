use vstd::prelude::*;

use crate::domain::OrderSide;

verus! {

/// A request to the engine: a new order, a change to a resting order, or its
/// withdrawal.
#[derive(Debug)]
pub enum OrderRequest<A> {
    NewMarketOrder {
        order_asset: A,
        price_asset: A,
        side: OrderSide,
        qty: u128,
        order_creator: String,
        ts: u64,
    },
    NewLimitOrder {
        order_asset: A,
        price_asset: A,
        side: OrderSide,
        price: u64,
        qty: u128,
        order_creator: String,
        ts: u64,
    },
    /// Changes price and quantity of a resting order. The side must be the
    /// order's own: to change side, cancel and submit a new order.
    AmendOrder { id: u64, side: OrderSide, price: u64, qty: u128, ts: u64 },
    CancelOrder { id: u64, side: OrderSide },
}

/// Builds a request for a new market order.
pub fn new_market_order_request<A>(
    order_asset: A,
    price_asset: A,
    side: OrderSide,
    qty: u128,
    order_creator: String,
    ts: u64,
) -> (r: OrderRequest<A>)
    ensures
        r == (OrderRequest::NewMarketOrder { order_asset, price_asset, side, qty, order_creator, ts }),
{
    OrderRequest::NewMarketOrder { order_asset, price_asset, side, qty, order_creator, ts }
}

/// Builds a request for a new limit order.
pub fn new_limit_order_request<A>(
    order_asset: A,
    price_asset: A,
    side: OrderSide,
    price: u64,
    qty: u128,
    order_creator: String,
    ts: u64,
) -> (r: OrderRequest<A>)
    ensures
        r == (OrderRequest::NewLimitOrder {
            order_asset,
            price_asset,
            side,
            price,
            qty,
            order_creator,
            ts,
        }),
{
    OrderRequest::NewLimitOrder { order_asset, price_asset, side, price, qty, order_creator, ts }
}

/// Builds a request that changes price and quantity of a resting limit order.
pub fn amend_order_request<A>(id: u64, side: OrderSide, price: u64, qty: u128, ts: u64) -> (r:
    OrderRequest<A>)
    ensures
        r == (OrderRequest::<A>::AmendOrder { id, side, price, qty, ts }),
{
    OrderRequest::AmendOrder { id, side, price, qty, ts }
}

/// Builds a request that withdraws a resting limit order.
pub fn limit_order_cancel_request<A>(order_id: u64, side: OrderSide) -> (r: OrderRequest<A>)
    ensures
        r == (OrderRequest::<A>::CancelOrder { id: order_id, side }),
{
    OrderRequest::CancelOrder { id: order_id, side }
}

} // verus!
