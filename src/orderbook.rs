use vstd::prelude::*;

use crate::domain::{AssetTag, Order, OrderSide, OrderType};
use crate::order_queues::{
    has_id, ids_below, index_of, insert_point, inserted, lemma_ids_below_insert,
    lemma_ids_below_remove, lemma_insert_point_exists, pos_of, queue_wf, removed, OrderIndex,
    OrderQueue,
};
use crate::orders::OrderRequest;
use crate::validation::{OrderRequestValidator, ValidationError};

verus! {

/// What happened to an order, one record per event.
#[derive(PartialEq, Eq, Clone, Debug)]
pub enum Success {
    Accepted { id: u64, order_type: OrderType, order_creator: String, ts: u64 },
    Filled {
        order_id: u64,
        side: OrderSide,
        order_type: OrderType,
        price: u64,
        qty: u128,
        order_creator: String,
        ts: u64,
    },
    PartiallyFilled {
        order_id: u64,
        side: OrderSide,
        order_type: OrderType,
        price: u64,
        qty: u128,
        order_creator: String,
        ts: u64,
    },
    Amended { id: u64, price: u64, qty: u128, ts: u64 },
    /// `ts` is the time stamp the cancelled order carried.
    Cancelled { id: u64, ts: u64 },
}

/// Why a request, or its remainder, went unserved.
#[derive(PartialEq, Eq, Structural, Clone, Copy, Debug)]
pub enum Failed {
    ValidationFailed(ValidationError),
    OrderNotFound(u64),
    NoMatch(u64),
}

pub type OrderProcessingResult = Vec<Result<Success, Failed>>;

/// The order being matched: who sent it, on which side, and its limit price
/// (ignored for market orders).
#[derive(Clone, Debug)]
pub struct Incoming {
    pub id: u64,
    pub side: OrderSide,
    pub order_type: OrderType,
    pub price: u64,
    pub order_creator: String,
    pub ts: u64,
}

/// The state of a book as the contracts see it.
pub struct BookView<A> {
    pub order_asset: A,
    pub price_asset: A,
    pub bids: Seq<Order<A>>,
    pub asks: Seq<Order<A>>,
    pub next_id: u64,
}

/// Whether a resting order at `best` can trade with the incoming order.
pub open spec fn marketable(t: Incoming, best: u64) -> bool {
    match t.order_type {
        OrderType::Market => true,
        OrderType::Limit => match t.side {
            OrderSide::Bid => best <= t.price,
            OrderSide::Ask => best >= t.price,
        },
    }
}

/// A fill record: `Filled` when the order has nothing left, else
/// `PartiallyFilled`.
pub open spec fn fill_record(
    order_id: u64,
    side: OrderSide,
    order_type: OrderType,
    price: u64,
    qty: u128,
    order_creator: String,
    ts: u64,
    done: bool,
) -> Result<Success, Failed> {
    if done {
        Ok(Success::Filled { order_id, side, order_type, price, qty, order_creator, ts })
    } else {
        Ok(Success::PartiallyFilled { order_id, side, order_type, price, qty, order_creator, ts })
    }
}

pub open spec fn min_qty(a: u128, b: u128) -> u128 {
    if a < b {
        a
    } else {
        b
    }
}

/// Matching `remaining` of the incoming order against the opposite side `opp`:
/// the side left behind, the quantity left unmatched, and the records, two
/// per trade (incoming first), each trade at the resting order's price.
pub open spec fn match_spec<A>(opp: Seq<Order<A>>, t: Incoming, remaining: u128) -> (
    Seq<Order<A>>,
    u128,
    Seq<Result<Success, Failed>>,
)
    decreases opp.len(),
{
    if remaining == 0 || opp.len() == 0 || !marketable(t, opp[0].price) {
        (opp, remaining, Seq::empty())
    } else {
        let m = opp[0];
        let q = min_qty(remaining, m.qty);
        let records = seq![
            fill_record(t.id, t.side, t.order_type, m.price, q, t.order_creator, t.ts, remaining == q),
            fill_record(m.order_id, m.side, OrderType::Limit, m.price, q, m.order_creator, m.ts, m.qty == q),
        ];
        if m.qty == q {
            let rest = match_spec(opp.drop_first(), t, (remaining - q) as u128);
            (rest.0, rest.1, records + rest.2)
        } else {
            (opp.update(0, Order { qty: (m.qty - q) as u128, ..m }), 0, records)
        }
    }
}

pub open spec fn validator_of<A>(b: BookView<A>) -> OrderRequestValidator<A> {
    OrderRequestValidator {
        orderbook_order_asset: b.order_asset,
        orderbook_price_asset: b.price_asset,
        min_sequence_id: 1,
        max_sequence_id: (b.next_id - 1) as u64,
    }
}

/// A new order: accepted under the next id, matched against the other side;
/// a limit remainder rests, a market remainder is dropped with `NoMatch`.
pub open spec fn new_order_spec<A>(
    b: BookView<A>,
    side: OrderSide,
    order_type: OrderType,
    price: u64,
    qty: u128,
    order_creator: String,
    ts: u64,
) -> (BookView<A>, Seq<Result<Success, Failed>>) {
    let id = b.next_id;
    let t = Incoming { id, side, order_type, price, order_creator, ts };
    let opp = if side == OrderSide::Bid {
        b.asks
    } else {
        b.bids
    };
    let own = if side == OrderSide::Bid {
        b.bids
    } else {
        b.asks
    };
    let m = match_spec(opp, t, qty);
    let rest = Order {
        order_id: id,
        order_asset: b.order_asset,
        price_asset: b.price_asset,
        side,
        price,
        qty: m.1,
        order_creator,
        ts,
    };
    let own2 = if order_type == OrderType::Limit && m.1 > 0 {
        inserted(side, own, rest)
    } else {
        own
    };
    let tail = if order_type == OrderType::Market && m.1 > 0 {
        seq![Err(Failed::NoMatch(id))]
    } else {
        Seq::empty()
    };
    let b2 = BookView {
        bids: if side == OrderSide::Bid {
            own2
        } else {
            m.0
        },
        asks: if side == OrderSide::Bid {
            m.0
        } else {
            own2
        },
        next_id: (id + 1) as u64,
        ..b
    };
    (b2, seq![Ok(Success::Accepted { id, order_type, order_creator, ts })] + m.2 + tail)
}

pub open spec fn side_of<A>(b: BookView<A>, side: OrderSide) -> Seq<Order<A>> {
    if side == OrderSide::Bid {
        b.bids
    } else {
        b.asks
    }
}

pub open spec fn with_side<A>(b: BookView<A>, side: OrderSide, s: Seq<Order<A>>) -> BookView<A> {
    if side == OrderSide::Bid {
        BookView { bids: s, ..b }
    } else {
        BookView { asks: s, ..b }
    }
}

/// Cancelling a valid id: the order leaves its side, or `OrderNotFound`.
pub open spec fn cancel_spec<A>(b: BookView<A>, id: u64, side: OrderSide) -> (
    BookView<A>,
    Seq<Result<Success, Failed>>,
) {
    let s = side_of(b, side);
    if has_id(s, id) {
        (
            with_side(b, side, removed(s, id)),
            seq![Ok(Success::Cancelled { id, ts: s[pos_of(s, id)].ts })],
        )
    } else {
        (b, seq![Err(Failed::OrderNotFound(id))])
    }
}

/// Amending a valid id: the order takes the new price, quantity and time
/// stamp and rejoins its side at the back of its new price level, without
/// matching; or `OrderNotFound`.
pub open spec fn amend_spec<A>(
    b: BookView<A>,
    id: u64,
    side: OrderSide,
    price: u64,
    qty: u128,
    ts: u64,
) -> (BookView<A>, Seq<Result<Success, Failed>>) {
    let s = side_of(b, side);
    if has_id(s, id) {
        let o = s[pos_of(s, id)];
        let o2 = Order { price, qty, ts, ..o };
        (
            with_side(b, side, inserted(side, removed(s, id), o2)),
            seq![Ok(Success::Amended { id, price, qty, ts })],
        )
    } else {
        (b, seq![Err(Failed::OrderNotFound(id))])
    }
}

/// What `process_order` does to a book, and the records it returns.
pub open spec fn process_spec<A: AssetTag>(b: BookView<A>, request: OrderRequest<A>) -> (
    BookView<A>,
    Seq<Result<Success, Failed>>,
) {
    match validator_of(b).validate_spec(request) {
        Err(e) => (b, seq![Err(Failed::ValidationFailed(e))]),
        Ok(_) => match request {
            OrderRequest::NewMarketOrder { side, qty, order_creator, ts, .. } => new_order_spec(
                b,
                side,
                OrderType::Market,
                0,
                qty,
                order_creator,
                ts,
            ),
            OrderRequest::NewLimitOrder { side, price, qty, order_creator, ts, .. } =>
                new_order_spec(b, side, OrderType::Limit, price, qty, order_creator, ts),
            OrderRequest::CancelOrder { id, side } => cancel_spec(b, id, side),
            OrderRequest::AmendOrder { id, side, price, qty, ts } => amend_spec(
                b,
                id,
                side,
                price,
                qty,
                ts,
            ),
        },
    }
}

pub open spec fn book_wf<A>(b: BookView<A>) -> bool {
    &&& queue_wf(OrderSide::Bid, b.bids)
    &&& queue_wf(OrderSide::Ask, b.asks)
    &&& ids_below(b.bids, b.next_id)
    &&& ids_below(b.asks, b.next_id)
    &&& b.next_id >= 1
}

/// The best bid is strictly below the best ask whenever both sides hold orders.
pub open spec fn uncrossed<A>(b: BookView<A>) -> bool {
    b.bids.len() > 0 && b.asks.len() > 0 ==> b.bids[0].price < b.asks[0].price
}

/// The matching engine for one pair of assets.
#[derive(Debug)]
pub struct Orderbook<A> {
    order_asset: A,
    price_asset: A,
    bid_queue: OrderQueue<A>,
    ask_queue: OrderQueue<A>,
    next_order_id: u64,
    validator: OrderRequestValidator<A>,
}

impl<A> View for Orderbook<A> {
    type V = BookView<A>;

    closed spec fn view(&self) -> BookView<A> {
        BookView {
            order_asset: self.order_asset,
            price_asset: self.price_asset,
            bids: self.bid_queue@,
            asks: self.ask_queue@,
            next_id: self.next_order_id,
        }
    }
}

/// Matches the incoming order against `opp` for as long as it has quantity
/// left and the best resting order is marketable, writing the records to
/// `results`; returns the quantity left unmatched.
fn match_against<A: AssetTag>(
    opp: &mut OrderQueue<A>,
    t: &Incoming,
    qty: u128,
    results: &mut Vec<Result<Success, Failed>>,
) -> (remaining: u128)
    requires
        old(opp).wf(),
        old(opp).side_spec() == t.side.opposite_spec(),
    ensures
        final(opp).wf(),
        final(opp).side_spec() == old(opp).side_spec(),
        final(opp)@ == match_spec(old(opp)@, *t, qty).0,
        remaining == match_spec(old(opp)@, *t, qty).1,
        final(results)@ == old(results)@ + match_spec(old(opp)@, *t, qty).2,
{
    let ghost orig = opp@;
    let ghost start = results@;
    let mut remaining = qty;
    while remaining > 0 && can_trade(opp, t)
        invariant
            opp.wf(),
            opp.side_spec() == t.side.opposite_spec(),
            match_spec(opp@, *t, remaining).0 == match_spec(orig, *t, qty).0,
            match_spec(opp@, *t, remaining).1 == match_spec(orig, *t, qty).1,
            results@ + match_spec(opp@, *t, remaining).2 == start + match_spec(orig, *t, qty).2,
        decreases opp@.len() + (if remaining > 0 { 1int } else { 0int }),
    {
        let ghost before = opp@;
        let m = opp.peek_best().unwrap();
        let m_id = m.order_id;
        let m_price = m.price;
        let m_qty = m.qty;
        let q = if remaining < m_qty {
            remaining
        } else {
            m_qty
        };
        let taker = if remaining == q {
            Ok(
                Success::Filled {
                    order_id: t.id,
                    side: t.side,
                    order_type: t.order_type,
                    price: m_price,
                    qty: q,
                    order_creator: t.order_creator.clone(),
                    ts: t.ts,
                },
            )
        } else {
            Ok(
                Success::PartiallyFilled {
                    order_id: t.id,
                    side: t.side,
                    order_type: t.order_type,
                    price: m_price,
                    qty: q,
                    order_creator: t.order_creator.clone(),
                    ts: t.ts,
                },
            )
        };
        let maker = if m_qty == q {
            Ok(
                Success::Filled {
                    order_id: m_id,
                    side: m.side,
                    order_type: OrderType::Limit,
                    price: m_price,
                    qty: q,
                    order_creator: m.order_creator.clone(),
                    ts: m.ts,
                },
            )
        } else {
            Ok(
                Success::PartiallyFilled {
                    order_id: m_id,
                    side: m.side,
                    order_type: OrderType::Limit,
                    price: m_price,
                    qty: q,
                    order_creator: m.order_creator.clone(),
                    ts: m.ts,
                },
            )
        };
        let ghost records = seq![taker, maker];
        results.push(taker);
        results.push(maker);
        proof {
            crate::order_queues::lemma_pos_of_unique(before, m_id, 0);
            assert(before.remove(0) == before.drop_first());
        }
        opp.reduce_qty(m_id, q);
        remaining = remaining - q;
        proof {
            assert(match_spec(before, *t, (remaining + q) as u128).2 == records + match_spec(
                opp@,
                *t,
                remaining,
            ).2) by {
                if m_qty != q {
                    assert(match_spec(opp@, *t, remaining).2 == Seq::<Result<Success, Failed>>::empty());
                }
            }
            assert(results@ == results@.subrange(0, results@.len() - 2) + records);
        }
    }
    remaining
}

/// Matching leaves only orders that were on the side before, with the same
/// ids.
pub proof fn lemma_match_ids_below<A>(opp: Seq<Order<A>>, t: Incoming, remaining: u128, n: u64)
    requires
        ids_below(opp, n),
    ensures
        ids_below(match_spec(opp, t, remaining).0, n),
    decreases opp.len(),
{
    if remaining == 0 || opp.len() == 0 || !marketable(t, opp[0].price) {
    } else {
        let m = opp[0];
        let q = min_qty(remaining, m.qty);
        if m.qty == q {
            assert(ids_below(opp.drop_first(), n)) by {
                assert forall|i: int| 0 <= i < opp.drop_first().len() implies 1 <= (
                #[trigger] opp.drop_first()[i]).order_id < n by {
                    assert(opp.drop_first()[i] == opp[i + 1]);
                }
            }
            lemma_match_ids_below(opp.drop_first(), t, (remaining - q) as u128, n);
        } else {
            let s = opp.update(0, Order { qty: (m.qty - q) as u128, ..m });
            assert forall|i: int| 0 <= i < s.len() implies 1 <= (#[trigger] s[i]).order_id < n by {
                assert(s[i].order_id == opp[i].order_id);
            }
        }
    }
}

pub proof fn lemma_ids_below_mono<A>(s: Seq<Order<A>>, n: u64, m: u64)
    requires
        ids_below(s, n),
        n <= m,
    ensures
        ids_below(s, m),
{
    assert forall|i: int| 0 <= i < s.len() implies 1 <= (#[trigger] s[i]).order_id < m by {}
}

impl<A: AssetTag> Orderbook<A> {
    pub closed spec fn wf(&self) -> bool {
        &&& book_wf(self@)
        &&& self.bid_queue.wf()
        &&& self.ask_queue.wf()
        &&& self.bid_queue.side_spec() == OrderSide::Bid
        &&& self.ask_queue.side_spec() == OrderSide::Ask
        &&& self.validator == validator_of(self@)
    }

    /// An empty book for one pair; the first order gets id 1.
    pub fn new(order_asset: A, price_asset: A) -> (r: Self)
        ensures
            r.wf(),
            r@ == (BookView::<A> {
                order_asset,
                price_asset,
                bids: Seq::empty(),
                asks: Seq::empty(),
                next_id: 1,
            }),
    {
        Orderbook {
            order_asset,
            price_asset,
            bid_queue: OrderQueue::new(OrderSide::Bid),
            ask_queue: OrderQueue::new(OrderSide::Ask),
            next_order_id: 1,
            validator: OrderRequestValidator::new(order_asset, price_asset, 1, 0),
        }
    }

    /// Validates and carries out one request, returning what happened in the
    /// order it happened. A refused request changes nothing. An amend
    /// re-prices a resting order without matching it, so only new orders and
    /// cancels are promised to leave an uncrossed book uncrossed.
    pub fn process_order(&mut self, request: OrderRequest<A>) -> (r: OrderProcessingResult)
        requires
            old(self).wf(),
            request is NewMarketOrder || request is NewLimitOrder ==> old(self)@.next_id < u64::MAX,
        ensures
            final(self).wf(),
            final(self)@ == process_spec(old(self)@, request).0,
            r@ == process_spec(old(self)@, request).1,
            book_wf(final(self)@),
            uncrossed(old(self)@) && !(request is AmendOrder) ==> uncrossed(final(self)@),
    {
        proof {
            if uncrossed(self@) && !(request is AmendOrder) {
                crate::laws::lemma_stays_uncrossed(self@, request);
            }
        }
        match self.validator.validate(&request) {
            Err(e) => {
                return vec![Err(Failed::ValidationFailed(e))];
            },
            Ok(_) => {},
        }
        match request {
            OrderRequest::NewMarketOrder { side, qty, order_creator, ts, .. } => {
                self.process_new(side, OrderType::Market, 0, qty, order_creator, ts)
            },
            OrderRequest::NewLimitOrder { side, price, qty, order_creator, ts, .. } => {
                self.process_new(side, OrderType::Limit, price, qty, order_creator, ts)
            },
            OrderRequest::CancelOrder { id, side } => self.process_cancel(id, side),
            OrderRequest::AmendOrder { id, side, price, qty, ts } => {
                self.process_amend(id, side, price, qty, ts)
            },
        }
    }

    fn process_new(
        &mut self,
        side: OrderSide,
        order_type: OrderType,
        price: u64,
        qty: u128,
        order_creator: String,
        ts: u64,
    ) -> (r: OrderProcessingResult)
        requires
            old(self).wf(),
            old(self)@.next_id < u64::MAX,
        ensures
            final(self).wf(),
            (final(self)@, r@) == new_order_spec(
                old(self)@,
                side,
                order_type,
                price,
                qty,
                order_creator,
                ts,
            ),
    {
        let ghost b = self@;
        let id = self.next_order_id;
        self.next_order_id = id + 1;
        self.validator.max_sequence_id = id;
        let mut results: OrderProcessingResult = vec![
            Ok(Success::Accepted { id, order_type, order_creator: order_creator.clone(), ts }),
        ];
        let t = Incoming { id, side, order_type, price, order_creator: order_creator.clone(), ts };
        let remaining = match side {
            OrderSide::Bid => match_against(&mut self.ask_queue, &t, qty, &mut results),
            OrderSide::Ask => match_against(&mut self.bid_queue, &t, qty, &mut results),
        };
        proof {
            lemma_ids_below_mono(b.asks, id, (id + 1) as u64);
            lemma_ids_below_mono(b.bids, id, (id + 1) as u64);
            lemma_match_ids_below(b.asks, t, qty, (id + 1) as u64);
            lemma_match_ids_below(b.bids, t, qty, (id + 1) as u64);
        }
        if remaining > 0 {
            match order_type {
                OrderType::Limit => {
                    let rest = Order {
                        order_id: id,
                        order_asset: self.order_asset,
                        price_asset: self.price_asset,
                        side,
                        price,
                        qty: remaining,
                        order_creator,
                        ts,
                    };
                    let ghost own = if side == OrderSide::Bid {
                        b.bids
                    } else {
                        b.asks
                    };
                    proof {
                        assert(!has_id(own, id)) by {
                            if has_id(own, id) {
                                let k = choose|k: int| 0 <= k < own.len() && (#[trigger] own[k]).order_id == id;
                                assert(own[k].order_id < id);
                            }
                        }
                    }
                    match side {
                        OrderSide::Bid => self.bid_queue.insert(rest),
                        OrderSide::Ask => self.ask_queue.insert(rest),
                    }
                    proof {
                        let k = insert_point(side, own, price);
                        lemma_insert_point_exists(side, own, price);
                        lemma_ids_below_insert(own, k, rest, (id + 1) as u64);
                    }
                },
                OrderType::Market => {
                    results.push(Err(Failed::NoMatch(id)));
                },
            }
        }
        results
    }

    fn process_cancel(&mut self, id: u64, side: OrderSide) -> (r: OrderProcessingResult)
        requires
            old(self).wf(),
        ensures
            final(self).wf(),
            (final(self)@, r@) == cancel_spec(old(self)@, id, side),
    {
        let removed = match side {
            OrderSide::Bid => self.bid_queue.remove(id),
            OrderSide::Ask => self.ask_queue.remove(id),
        };
        proof {
            let s = side_of(old(self)@, side);
            if has_id(s, id) {
                lemma_ids_below_remove(s, pos_of(s, id), self.next_order_id);
            }
        }
        match removed {
            Some(o) => vec![Ok(Success::Cancelled { id, ts: o.ts })],
            None => vec![Err(Failed::OrderNotFound(id))],
        }
    }

    fn process_amend(&mut self, id: u64, side: OrderSide, price: u64, qty: u128, ts: u64) -> (r:
        OrderProcessingResult)
        requires
            old(self).wf(),
            qty > 0,
        ensures
            final(self).wf(),
            (final(self)@, r@) == amend_spec(old(self)@, id, side, price, qty, ts),
    {
        let found = match side {
            OrderSide::Bid => self.bid_queue.amend(id, price, qty, ts),
            OrderSide::Ask => self.ask_queue.amend(id, price, qty, ts),
        };
        if found {
            vec![Ok(Success::Amended { id, price, qty, ts })]
        } else {
            vec![Err(Failed::OrderNotFound(id))]
        }
    }

    /// The id the next new order will get.
    pub fn next_order_id(&self) -> (r: u64)
        ensures
            r == self@.next_id,
    {
        self.next_order_id
    }

    /// The best bid and best ask prices, when both sides hold orders.
    pub fn current_spread(&self) -> (r: Option<(u64, u64)>)
        ensures
            r == (if self@.bids.len() > 0 && self@.asks.len() > 0 {
                Some((self@.bids[0].price, self@.asks[0].price))
            } else {
                None
            }),
    {
        match (self.bid_queue.peek_best(), self.ask_queue.peek_best()) {
            (Some(b), Some(a)) => Some((b.price, a.price)),
            _ => None,
        }
    }

    /// The resting asks, best first.
    pub fn get_ask_queue(&self) -> (r: Vec<OrderIndex>)
        ensures
            r@ == self@.asks.map_values(|o: Order<A>| index_of(o)),
    {
        self.ask_queue.snapshot()
    }

    /// The resting bids, best first.
    pub fn get_bid_queue(&self) -> (r: Vec<OrderIndex>)
        ensures
            r@ == self@.bids.map_values(|o: Order<A>| index_of(o)),
    {
        self.bid_queue.snapshot()
    }
}

/// Whether the best order of `opp` exists and can trade with `t`.
fn can_trade<A>(opp: &OrderQueue<A>, t: &Incoming) -> (r: bool)
    ensures
        r == (opp@.len() > 0 && marketable(*t, opp@[0].price)),
{
    match opp.peek_best() {
        None => false,
        Some(m) => match t.order_type {
            OrderType::Market => true,
            OrderType::Limit => match t.side {
                OrderSide::Bid => m.price <= t.price,
                OrderSide::Ask => m.price >= t.price,
            },
        },
    }
}

} // verus!
