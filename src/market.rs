use vstd::prelude::*;

use crate::domain::{AssetTag, Order, OrderSide};
use crate::order_queues::{index_of, OrderIndex};
use crate::orderbook::{
    book_wf, process_spec, BookView, Failed, OrderProcessingResult, Orderbook, Success,
};
use crate::orders::OrderRequest;

verus! {

/// The two tokens the market trades: the order asset and the price asset.
#[allow(non_camel_case_types)]
#[derive(PartialEq, Eq, Structural, Clone, Copy, Debug)]
pub enum Asset {
    nFT,
    nDAI,
}

impl Default for Asset {
    fn default() -> (r: Self)
        ensures
            r == Asset::nFT,
    {
        Asset::nFT
    }
}

impl AssetTag for Asset {
    fn same(&self, other: &Self) -> (r: bool) {
        *self == *other
    }
}

/// The side a request names: "Ask" or "Bid".
pub open spec fn side_named(s: Seq<char>) -> Option<OrderSide> {
    if s == "Ask"@ {
        Some(OrderSide::Ask)
    } else if s == "Bid"@ {
        Some(OrderSide::Bid)
    } else {
        None
    }
}

/// Reads a side name; `None` for anything but "Ask" and "Bid".
pub fn parse_side(side: &str) -> (r: Option<OrderSide>)
    ensures
        r == side_named(side@),
{
    let s = side.to_owned();
    if s == "Ask".to_owned() {
        Some(OrderSide::Ask)
    } else if s == "Bid".to_owned() {
        Some(OrderSide::Bid)
    } else {
        None
    }
}

/// The token contract that holds what an order on `side` pays in: the order
/// asset for asks, the price asset for bids.
pub open spec fn token_account_of(side: OrderSide) -> Seq<char> {
    match side {
        OrderSide::Ask => "ft.hacker.testnet"@,
        OrderSide::Bid => "dai.hacker.testnet"@,
    }
}

pub fn get_token_account(side: OrderSide) -> (r: String)
    ensures
        r@ == token_account_of(side),
{
    match side {
        OrderSide::Ask => "ft.hacker.testnet".to_owned(),
        OrderSide::Bid => "dai.hacker.testnet".to_owned(),
    }
}

/// A payout the market owes after a trade: `amount` of the token kept by
/// `token_account`, to `receiver`.
#[derive(PartialEq, Eq, Clone, Debug)]
pub struct TokenTransfer {
    pub token_account: String,
    pub receiver: String,
    pub amount: u128,
}

/// The payout for one record: each filled or partly filled order receives
/// the traded quantity in the token of the other side.
pub open spec fn payout_of(r: Result<Success, Failed>) -> Seq<(Seq<char>, Seq<char>, u128)> {
    match r {
        Ok(Success::Filled { side, qty, order_creator, .. }) => seq![
            (token_account_of(side.opposite_spec()), order_creator@, qty),
        ],
        Ok(Success::PartiallyFilled { side, qty, order_creator, .. }) => seq![
            (token_account_of(side.opposite_spec()), order_creator@, qty),
        ],
        _ => Seq::empty(),
    }
}

/// The payouts for a run of records, in order.
pub open spec fn payouts_of(rs: Seq<Result<Success, Failed>>) -> Seq<(Seq<char>, Seq<char>, u128)>
    decreases rs.len(),
{
    if rs.len() == 0 {
        Seq::empty()
    } else {
        payouts_of(rs.drop_last()) + payout_of(rs.last())
    }
}

pub open spec fn transfer_view(t: TokenTransfer) -> (Seq<char>, Seq<char>, u128) {
    (t.token_account@, t.receiver@, t.amount)
}

/// The transfers that settle the trades reported in `order`; records other
/// than fills ask for none.
pub fn process_orderbook_result(order: &Vec<Result<Success, Failed>>) -> (r: Vec<TokenTransfer>)
    ensures
        r@.map_values(|t: TokenTransfer| transfer_view(t)) == payouts_of(order@),
{
    let mut r: Vec<TokenTransfer> = Vec::new();
    let mut i: usize = 0;
    while i < order.len()
        invariant
            i <= order@.len(),
            r@.map_values(|t: TokenTransfer| transfer_view(t)) == payouts_of(
                order@.subrange(0, i as int),
            ),
        decreases order@.len() - i,
    {
        let ghost before = r@;
        let rec = &order[i];
        match rec {
            Ok(Success::Filled { side, qty, order_creator, .. }) => {
                r.push(
                    TokenTransfer {
                        token_account: get_token_account(side.opposite()),
                        receiver: order_creator.clone(),
                        amount: *qty,
                    },
                );
            },
            Ok(Success::PartiallyFilled { side, qty, order_creator, .. }) => {
                r.push(
                    TokenTransfer {
                        token_account: get_token_account(side.opposite()),
                        receiver: order_creator.clone(),
                        amount: *qty,
                    },
                );
            },
            _ => {},
        }
        proof {
            let pre = order@.subrange(0, i as int);
            let next = order@.subrange(0, i + 1);
            assert(next.drop_last() == pre);
            assert(next.last() == order@[i as int]);
            assert(r@.map_values(|t: TokenTransfer| transfer_view(t)) == before.map_values(
                |t: TokenTransfer| transfer_view(t),
            ) + payout_of(order@[i as int]));
        }
        i = i + 1;
    }
    assert(order@.subrange(0, order@.len() as int) == order@);
    r
}

/// The market: one order book for nFT priced in nDAI.
#[derive(Debug)]
pub struct Market {
    market_order_book: Orderbook<Asset>,
    order_asset: Asset,
    price_asset: Asset,
}

impl Market {
    pub closed spec fn book(&self) -> BookView<Asset> {
        self.market_order_book@
    }

    pub closed spec fn wf(&self) -> bool {
        &&& self.market_order_book.wf()
        &&& self.order_asset == Asset::nFT
        &&& self.price_asset == Asset::nDAI
        &&& self.market_order_book@.order_asset == Asset::nFT
        &&& self.market_order_book@.price_asset == Asset::nDAI
    }

    /// An empty market.
    pub fn new() -> (r: Self)
        ensures
            r.wf(),
            r.book() == (BookView::<Asset> {
                order_asset: Asset::nFT,
                price_asset: Asset::nDAI,
                bids: Seq::empty(),
                asks: Seq::empty(),
                next_id: 1,
            }),
    {
        Market {
            market_order_book: Orderbook::new(Asset::nFT, Asset::nDAI),
            order_asset: Asset::nFT,
            price_asset: Asset::nDAI,
        }
    }

    /// Places a limit order for `signer` once its tokens are in the market's
    /// custody, and returns what the book did with it.
    pub fn post_transfer(
        &mut self,
        price: u64,
        quantity: u128,
        side: String,
        signer: String,
        ts: u64,
    ) -> (r: OrderProcessingResult)
        requires
            old(self).wf(),
            side_named(side@) is Some,
            old(self).book().next_id < u64::MAX,
        ensures
            final(self).wf(),
            book_wf(final(self).book()),
            final(self).book() == process_spec(
                old(self).book(),
                OrderRequest::NewLimitOrder {
                    order_asset: Asset::nFT,
                    price_asset: Asset::nDAI,
                    side: side_named(side@).unwrap(),
                    price,
                    qty: quantity,
                    order_creator: signer,
                    ts,
                },
            ).0,
            r@ == process_spec(
                old(self).book(),
                OrderRequest::NewLimitOrder {
                    order_asset: Asset::nFT,
                    price_asset: Asset::nDAI,
                    side: side_named(side@).unwrap(),
                    price,
                    qty: quantity,
                    order_creator: signer,
                    ts,
                },
            ).1,
    {
        let order = crate::orders::new_limit_order_request(
            self.order_asset,
            self.price_asset,
            parse_side(side.as_str()).unwrap(),
            price,
            quantity,
            signer,
            ts,
        );
        self.market_order_book.process_order(order)
    }

    /// Withdraws a resting limit order.
    pub fn cancel_limit_order(&mut self, id: u64, side: String) -> (r: OrderProcessingResult)
        requires
            old(self).wf(),
            side_named(side@) is Some,
        ensures
            final(self).wf(),
            final(self).book() == process_spec(
                old(self).book(),
                OrderRequest::CancelOrder { id, side: side_named(side@).unwrap() },
            ).0,
            r@ == process_spec(
                old(self).book(),
                OrderRequest::CancelOrder { id, side: side_named(side@).unwrap() },
            ).1,
    {
        let order = crate::orders::limit_order_cancel_request(id, parse_side(side.as_str()).unwrap());
        self.market_order_book.process_order(order)
    }

    /// The id the next order placed will get.
    pub fn next_order_id(&self) -> (r: u64)
        requires
            self.wf(),
        ensures
            r == self.book().next_id,
    {
        self.market_order_book.next_order_id()
    }

    /// The resting asks, best first.
    pub fn get_ask_orders(&self) -> (r: Vec<OrderIndex>)
        requires
            self.wf(),
        ensures
            r@ == self.book().asks.map_values(|o: Order<Asset>| index_of(o)),
    {
        self.market_order_book.get_ask_queue()
    }

    /// The resting bids, best first.
    pub fn get_bid_orders(&self) -> (r: Vec<OrderIndex>)
        requires
            self.wf(),
        ensures
            r@ == self.book().bids.map_values(|o: Order<Asset>| index_of(o)),
    {
        self.market_order_book.get_bid_queue()
    }

    /// `[best ask, best bid]`, or `[0, 0]` while either side is empty.
    pub fn get_current_spread(&self) -> (r: Vec<u64>)
        requires
            self.wf(),
        ensures
            r@ == (if self.book().bids.len() > 0 && self.book().asks.len() > 0 {
                seq![self.book().asks[0].price, self.book().bids[0].price]
            } else {
                seq![0u64, 0u64]
            }),
    {
        match self.market_order_book.current_spread() {
            Some((bid, ask)) => vec![ask, bid],
            None => vec![0, 0],
        }
    }
}

} // verus!
