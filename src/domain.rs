use vstd::prelude::*;

verus! {

/// A tag naming a tradable instrument. The engine only ever asks whether two
/// tags are the same.
pub trait AssetTag: Copy + Sized {
    fn same(&self, other: &Self) -> (r: bool)
        ensures
            r == (*self == *other),
    ;
}

/// The side of the book an order belongs to.
#[derive(PartialEq, Eq, Structural, Clone, Copy, Debug)]
pub enum OrderSide {
    Bid,
    Ask,
}

impl Default for OrderSide {
    fn default() -> (r: Self)
        ensures
            r == OrderSide::Bid,
    {
        OrderSide::Bid
    }
}

impl OrderSide {
    /// The side that trades against this one.
    pub open spec fn opposite_spec(self) -> OrderSide {
        match self {
            OrderSide::Bid => OrderSide::Ask,
            OrderSide::Ask => OrderSide::Bid,
        }
    }

    pub fn opposite(&self) -> (r: OrderSide)
        ensures
            r == self.opposite_spec(),
    {
        match self {
            OrderSide::Bid => OrderSide::Ask,
            OrderSide::Ask => OrderSide::Bid,
        }
    }
}

/// How an incoming order is priced.
#[derive(PartialEq, Eq, Structural, Clone, Copy, Debug)]
pub enum OrderType {
    Market,
    Limit,
}

/// A resting limit order. `price` is in ticks and `qty` in lots; the
/// creator and time stamp are carried into the records of its fills.
#[derive(Clone, Debug)]
pub struct Order<A> {
    pub order_id: u64,
    pub order_asset: A,
    pub price_asset: A,
    pub side: OrderSide,
    pub price: u64,
    pub qty: u128,
    pub order_creator: String,
    pub ts: u64,
}

} // verus!
