use vstd::prelude::*;

use crate::domain::{AssetTag, Order, OrderSide, OrderType};
use crate::order_queues::{
    at_least_as_good, has_id, ids_below, insert_point, inserted, lemma_inserted_wf,
    lemma_insert_point_exists, lemma_pos_of_unique, pos_of, queue_wf,
    removed, sorted_by_priority,
};
use crate::orderbook::{
    book_wf, match_spec, marketable, min_qty, process_spec, side_of, uncrossed, BookView, Failed,
    Incoming, Success,
};
use crate::orders::OrderRequest;

verus! {

/// The total quantity resting on a side.
pub open spec fn total_qty<A>(s: Seq<Order<A>>) -> int
    decreases s.len(),
{
    if s.len() == 0 {
        0
    } else {
        s[0].qty + total_qty(s.drop_first())
    }
}

/// The traded quantity a fill record reports (zero for other records).
pub open spec fn fill_qty(r: Result<Success, Failed>) -> int {
    match r {
        Ok(Success::Filled { qty, .. }) => qty as int,
        Ok(Success::PartiallyFilled { qty, .. }) => qty as int,
        _ => 0,
    }
}

/// The quantity credited to the incoming order by a run of trade records,
/// which come in pairs, the incoming order's record first.
pub open spec fn incoming_credit(e: Seq<Result<Success, Failed>>) -> int
    decreases e.len(),
{
    if e.len() < 2 {
        0
    } else {
        fill_qty(e[0]) + incoming_credit(e.subrange(2, e.len() as int))
    }
}

/// The quantity taken from resting orders by a run of trade records.
pub open spec fn resting_debit(e: Seq<Result<Success, Failed>>) -> int
    decreases e.len(),
{
    if e.len() < 2 {
        0
    } else {
        fill_qty(e[1]) + resting_debit(e.subrange(2, e.len() as int))
    }
}

/// Conservation: matching removes from the resting side exactly the quantity
/// it credits to the incoming order, trade by trade, and that is the part of
/// the incoming quantity that got matched.
pub proof fn lemma_conservation<A>(opp: Seq<Order<A>>, t: Incoming, remaining: u128)
    ensures
        ({
            let (left, unmatched, records) = match_spec(opp, t, remaining);
            &&& total_qty(opp) - total_qty(left) == remaining - unmatched
            &&& incoming_credit(records) == remaining - unmatched
            &&& resting_debit(records) == remaining - unmatched
        }),
    decreases opp.len(),
{
    if remaining == 0 || opp.len() == 0 || !marketable(t, opp[0].price) {
    } else {
        let m = opp[0];
        let q = min_qty(remaining, m.qty);
        let records = seq![
            crate::orderbook::fill_record(t.id, t.side, t.order_type, m.price, q, t.order_creator, t.ts, remaining == q),
            crate::orderbook::fill_record(m.order_id, m.side, OrderType::Limit, m.price, q, m.order_creator, m.ts, m.qty == q),
        ];
        assert(fill_qty(records[0]) == q);
        assert(fill_qty(records[1]) == q);
        if m.qty == q {
            let rest = match_spec(opp.drop_first(), t, (remaining - q) as u128);
            lemma_conservation(opp.drop_first(), t, (remaining - q) as u128);
            let e = records + rest.2;
            assert(e.subrange(2, e.len() as int) == rest.2);
            assert(e[0] == records[0] && e[1] == records[1]);
            assert(incoming_credit(e) == q + incoming_credit(rest.2));
            assert(resting_debit(e) == q + resting_debit(rest.2));
            assert(total_qty(opp) == m.qty + total_qty(opp.drop_first()));
        } else {
            let left = opp.update(0, Order { qty: (m.qty - q) as u128, ..m });
            assert(left.drop_first() == opp.drop_first());
            assert(total_qty(opp) == m.qty + total_qty(opp.drop_first()));
            assert(total_qty(left) == left[0].qty + total_qty(left.drop_first()));
            assert(records.subrange(2, 2) == Seq::<Result<Success, Failed>>::empty());
            assert(incoming_credit(records) == q + incoming_credit(records.subrange(2, 2)));
            assert(resting_debit(records) == q + resting_debit(records.subrange(2, 2)));
        }
    }
}

/// Matching never improves the best price left on the resting side, and it
/// stops with quantity left only when the resting side is exhausted or no
/// longer marketable.
pub proof fn lemma_match_best<A>(side: OrderSide, opp: Seq<Order<A>>, t: Incoming, remaining: u128)
    requires
        sorted_by_priority(side, opp),
    ensures
        ({
            let (left, unmatched, _) = match_spec(opp, t, remaining);
            &&& left.len() > 0 ==> opp.len() > 0 && at_least_as_good(
                side,
                opp[0].price,
                left[0].price,
            )
            &&& left.len() <= opp.len()
            &&& unmatched > 0 ==> left.len() == 0 || !marketable(t, left[0].price)
        }),
    decreases opp.len(),
{
    if remaining == 0 || opp.len() == 0 || !marketable(t, opp[0].price) {
    } else {
        let m = opp[0];
        let q = min_qty(remaining, m.qty);
        if m.qty == q {
            let tail = opp.drop_first();
            assert(sorted_by_priority(side, tail)) by {
                assert forall|i: int, j: int| 0 <= i < j < tail.len() implies at_least_as_good(
                    side,
                    #[trigger] tail[i].price,
                    #[trigger] tail[j].price,
                ) by {
                    assert(tail[i] == opp[i + 1] && tail[j] == opp[j + 1]);
                }
            }
            lemma_match_best(side, tail, t, (remaining - q) as u128);
            let left = match_spec(tail, t, (remaining - q) as u128).0;
            if left.len() > 0 {
                assert(at_least_as_good(side, opp[0].price, opp[1].price));
                assert(tail[0] == opp[1]);
            }
        }
    }
}

/// The best order of a side after an insert: the new order, or the old best.
pub proof fn lemma_inserted_best<A>(side: OrderSide, s: Seq<Order<A>>, o: Order<A>)
    requires
        sorted_by_priority(side, s),
    ensures
        inserted(side, s, o).len() > 0,
        inserted(side, s, o)[0] == o || (s.len() > 0 && inserted(side, s, o)[0] == s[0]),
{
    lemma_insert_point_exists(side, s, o.price);
}

/// The best order of a side after a removal is no better than the old best.
pub proof fn lemma_removed_best<A>(side: OrderSide, s: Seq<Order<A>>, id: u64)
    requires
        queue_wf(side, s),
    ensures
        removed(s, id).len() > 0 ==> s.len() > 0 && at_least_as_good(
            side,
            s[0].price,
            removed(s, id)[0].price,
        ),
{
    if has_id(s, id) && removed(s, id).len() > 0 {
        let k = pos_of(s, id);
        let t = s.remove(k);
        if k == 0 {
            assert(t[0] == s[1]);
        } else {
            assert(t[0] == s[0]);
        }
    }
}

/// The book stays uncrossed: after a new order or a cancel on an uncrossed
/// book, the best bid is still strictly below the best ask. (An amend changes
/// a resting price without matching, so it is left out.)
pub proof fn lemma_stays_uncrossed<A: AssetTag>(b: BookView<A>, request: OrderRequest<A>)
    requires
        book_wf(b),
        uncrossed(b),
        !(request is AmendOrder),
    ensures
        uncrossed(process_spec(b, request).0),
{
    let b2 = process_spec(b, request).0;
    match crate::orderbook::validator_of(b).validate_spec(request) {
        Err(_) => {},
        Ok(_) => match request {
            OrderRequest::NewMarketOrder { side, qty, order_creator, ts, .. } => {
                lemma_new_order_uncrossed(b, side, OrderType::Market, 0, qty, order_creator, ts);
            },
            OrderRequest::NewLimitOrder { side, price, qty, order_creator, ts, .. } => {
                lemma_new_order_uncrossed(b, side, OrderType::Limit, price, qty, order_creator, ts);
            },
            OrderRequest::CancelOrder { id, side } => {
                lemma_removed_best(OrderSide::Bid, b.bids, id);
                lemma_removed_best(OrderSide::Ask, b.asks, id);
            },
            OrderRequest::AmendOrder { .. } => {},
        },
    }
}

proof fn lemma_new_order_uncrossed<A>(
    b: BookView<A>,
    side: OrderSide,
    order_type: OrderType,
    price: u64,
    qty: u128,
    order_creator: String,
    ts: u64,
)
    requires
        book_wf(b),
        uncrossed(b),
    ensures
        uncrossed(crate::orderbook::new_order_spec(b, side, order_type, price, qty, order_creator, ts).0),
{
    let id = b.next_id;
    let t = Incoming { id, side, order_type, price, order_creator, ts };
    if side == OrderSide::Bid {
        lemma_match_best(OrderSide::Ask, b.asks, t, qty);
        let m = match_spec(b.asks, t, qty);
        let rest = Order {
            order_id: id,
            order_asset: b.order_asset,
            price_asset: b.price_asset,
            side,
            price,
            qty: m.1,
            order_creator,
            ts,
        };
        lemma_inserted_best(OrderSide::Bid, b.bids, rest);
    } else {
        lemma_match_best(OrderSide::Bid, b.bids, t, qty);
        let m = match_spec(b.bids, t, qty);
        let rest = Order {
            order_id: id,
            order_asset: b.order_asset,
            price_asset: b.price_asset,
            side,
            price,
            qty: m.1,
            order_creator,
            ts,
        };
        lemma_inserted_best(OrderSide::Ask, b.asks, rest);
    }
}

/// Cancelling an id that was handed out but is not resting on the named side
/// answers `OrderNotFound` and leaves the book as it was, so asking again
/// gives the same answer.
pub proof fn lemma_cancel_absent<A: AssetTag>(b: BookView<A>, id: u64, side: OrderSide)
    requires
        book_wf(b),
        1 <= id < b.next_id,
        !has_id(side_of(b, side), id),
    ensures
        process_spec(b, OrderRequest::CancelOrder { id, side }) == (
            b,
            seq![Err::<Success, Failed>(Failed::OrderNotFound(id))],
        ),
        process_spec(process_spec(b, OrderRequest::CancelOrder { id, side }).0, OrderRequest::CancelOrder { id, side })
            == process_spec(b, OrderRequest::CancelOrder { id, side }),
{
}

/// Round trip: a limit order that rests without trading, cancelled right
/// after, leaves both sides as they were; its id stays used.
pub proof fn lemma_limit_then_cancel<A: AssetTag>(
    b: BookView<A>,
    order_asset: A,
    price_asset: A,
    side: OrderSide,
    price: u64,
    qty: u128,
    order_creator: String,
    ts: u64,
)
    requires
        book_wf(b),
        b.next_id < u64::MAX,
        crate::orderbook::validator_of(b).validate_spec(
            OrderRequest::NewLimitOrder {
                order_asset,
                price_asset,
                side,
                price,
                qty,
                order_creator,
                ts,
            },
        ) is Ok,
        side_of(b, side.opposite_spec()).len() == 0 || !marketable(
            Incoming { id: b.next_id, side, order_type: OrderType::Limit, price, order_creator, ts },
            side_of(b, side.opposite_spec())[0].price,
        ),
    ensures
        ({
            let placed = process_spec(
                b,
                OrderRequest::NewLimitOrder {
                    order_asset,
                    price_asset,
                    side,
                    price,
                    qty,
                    order_creator,
                    ts,
                },
            ).0;
            let back = process_spec(placed, OrderRequest::CancelOrder { id: b.next_id, side }).0;
            &&& back.bids == b.bids
            &&& back.asks == b.asks
            &&& back.next_id == b.next_id + 1
        }),
{
    let id = b.next_id;
    let t = Incoming { id, side, order_type: OrderType::Limit, price, order_creator, ts };
    let opp = side_of(b, side.opposite_spec());
    let own = side_of(b, side);
    assert(match_spec(opp, t, qty) == (opp, qty, Seq::<Result<Success, Failed>>::empty()));
    let rest = Order {
        order_id: id,
        order_asset: b.order_asset,
        price_asset: b.price_asset,
        side,
        price,
        qty,
        order_creator,
        ts,
    };
    lemma_insert_point_exists(side, own, price);
    let k = insert_point(side, own, price);
    assert(!has_id(own, id)) by {
        if has_id(own, id) {
            let j = choose|j: int| 0 <= j < own.len() && (#[trigger] own[j]).order_id == id;
            assert(own[j].order_id < id);
        }
    }
    lemma_inserted_wf(side, own, rest, k);
    let own2 = own.insert(k, rest);
    lemma_pos_of_unique(own2, id, k);
    assert(own2.remove(k) == own);
}

/// The id of the order a fill record is about.
pub open spec fn fill_id(r: Result<Success, Failed>) -> Option<u64> {
    match r {
        Ok(Success::Filled { order_id, .. }) => Some(order_id),
        Ok(Success::PartiallyFilled { order_id, .. }) => Some(order_id),
        _ => None,
    }
}

/// The traded quantity the records credit to order `id`.
pub open spec fn credited_to(e: Seq<Result<Success, Failed>>, id: u64) -> int
    decreases e.len(),
{
    if e.len() == 0 {
        0
    } else {
        (if fill_id(e[0]) == Some(id) {
            fill_qty(e[0])
        } else {
            0
        }) + credited_to(e.drop_first(), id)
    }
}

/// The traded quantity the records report for orders other than `id`.
pub open spec fn debited_from_others(e: Seq<Result<Success, Failed>>, id: u64) -> int
    decreases e.len(),
{
    if e.len() == 0 {
        0
    } else {
        (if fill_id(e[0]) == Some(id) {
            0
        } else {
            fill_qty(e[0])
        }) + debited_from_others(e.drop_first(), id)
    }
}

proof fn lemma_sums_concat(a: Seq<Result<Success, Failed>>, b: Seq<Result<Success, Failed>>, id: u64)
    ensures
        credited_to(a + b, id) == credited_to(a, id) + credited_to(b, id),
        debited_from_others(a + b, id) == debited_from_others(a, id) + debited_from_others(b, id),
    decreases a.len(),
{
    if a.len() > 0 {
        assert((a + b).drop_first() == a.drop_first() + b);
        assert((a + b)[0] == a[0]);
        lemma_sums_concat(a.drop_first(), b, id);
    } else {
        assert(a + b == b);
    }
}

/// In the records of a match, the incoming order's fills are exactly the
/// first of each pair, when no resting order shares its id.
proof fn lemma_match_sums<A>(opp: Seq<Order<A>>, t: Incoming, remaining: u128)
    requires
        ids_below(opp, t.id),
    ensures
        credited_to(match_spec(opp, t, remaining).2, t.id) == incoming_credit(
            match_spec(opp, t, remaining).2,
        ),
        debited_from_others(match_spec(opp, t, remaining).2, t.id) == resting_debit(
            match_spec(opp, t, remaining).2,
        ),
    decreases opp.len(),
{
    if remaining == 0 || opp.len() == 0 || !marketable(t, opp[0].price) {
    } else {
        let m = opp[0];
        let q = min_qty(remaining, m.qty);
        let records = seq![
            crate::orderbook::fill_record(t.id, t.side, t.order_type, m.price, q, t.order_creator, t.ts, remaining == q),
            crate::orderbook::fill_record(m.order_id, m.side, OrderType::Limit, m.price, q, m.order_creator, m.ts, m.qty == q),
        ];
        assert(m.order_id < t.id);
        assert(records.drop_first().drop_first() == Seq::<Result<Success, Failed>>::empty());
        assert(credited_to(records, t.id) == fill_qty(records[0])) by {
            assert(credited_to(records.drop_first(), t.id) == 0 + credited_to(
                records.drop_first().drop_first(),
                t.id,
            ));
        }
        assert(debited_from_others(records, t.id) == fill_qty(records[1])) by {
            assert(debited_from_others(records.drop_first(), t.id) == fill_qty(records[1])
                + debited_from_others(records.drop_first().drop_first(), t.id));
        }
        if m.qty == q {
            let tail = opp.drop_first();
            assert(ids_below(tail, t.id)) by {
                assert forall|i: int| 0 <= i < tail.len() implies 1 <= (#[trigger] tail[i]).order_id
                    < t.id by {
                    assert(0 <= i + 1 < opp.len());
                    assert(tail[i] == opp[i + 1]);
                }
            }
            let rest = match_spec(tail, t, (remaining - q) as u128);
            lemma_match_sums(tail, t, (remaining - q) as u128);
            lemma_sums_concat(records, rest.2, t.id);
            let e = records + rest.2;
            assert(e.subrange(2, e.len() as int) == rest.2);
            assert(e[0] == records[0] && e[1] == records[1]);
            assert(incoming_credit(e) == fill_qty(e[0]) + incoming_credit(rest.2));
            assert(resting_debit(e) == fill_qty(e[1]) + resting_debit(rest.2));
        } else {
            assert(records.subrange(2, 2) == Seq::<Result<Success, Failed>>::empty());
            assert(incoming_credit(records) == fill_qty(records[0]) + incoming_credit(
                records.subrange(2, 2),
            ));
            assert(resting_debit(records) == fill_qty(records[1]) + resting_debit(
                records.subrange(2, 2),
            ));
        }
    }
}

/// The side a new-order request trades against.
pub open spec fn opposite_of<A>(request: OrderRequest<A>) -> OrderSide {
    match request {
        OrderRequest::NewMarketOrder { side, .. } => side.opposite_spec(),
        OrderRequest::NewLimitOrder { side, .. } => side.opposite_spec(),
        OrderRequest::AmendOrder { side, .. } => side.opposite_spec(),
        OrderRequest::CancelOrder { side, .. } => side.opposite_spec(),
    }
}

/// Conservation over a whole new-order request: the quantity that leaves the
/// opposite side equals what the returned records credit to the new order,
/// and equals what they report for the resting orders it traded with.
pub proof fn lemma_request_conservation<A: AssetTag>(b: BookView<A>, request: OrderRequest<A>)
    requires
        book_wf(b),
        request is NewMarketOrder || request is NewLimitOrder,
    ensures
        ({
            let (after, records) = process_spec(b, request);
            let side = opposite_of(request);
            &&& total_qty(side_of(b, side)) - total_qty(side_of(after, side)) == credited_to(
                records,
                b.next_id,
            )
            &&& credited_to(records, b.next_id) == debited_from_others(records, b.next_id)
        }),
{
    let (after, records) = process_spec(b, request);
    match crate::orderbook::validator_of(b).validate_spec(request) {
        Err(e) => {
            let f = seq![Err::<Success, Failed>(Failed::ValidationFailed(e))];
            assert(f.drop_first() == Seq::<Result<Success, Failed>>::empty());
            assert(credited_to(f, b.next_id) == 0 + credited_to(f.drop_first(), b.next_id));
            assert(debited_from_others(f, b.next_id) == 0 + debited_from_others(f.drop_first(), b.next_id));
        },
        Ok(_) => {
            let (side, order_type, price, qty, order_creator, ts) = match request {
                OrderRequest::NewMarketOrder { side, qty, order_creator, ts, .. } => (
                    side,
                    OrderType::Market,
                    0u64,
                    qty,
                    order_creator,
                    ts,
                ),
                OrderRequest::NewLimitOrder { side, price, qty, order_creator, ts, .. } => (
                    side,
                    OrderType::Limit,
                    price,
                    qty,
                    order_creator,
                    ts,
                ),
                _ => arbitrary(),
            };
            let id = b.next_id;
            let t = Incoming { id, side, order_type, price, order_creator, ts };
            let opp = side_of(b, side.opposite_spec());
            let m = match_spec(opp, t, qty);
            lemma_conservation(opp, t, qty);
            lemma_match_sums(opp, t, qty);
            let head = seq![Ok::<Success, Failed>(Success::Accepted { id, order_type, order_creator, ts })];
            let tail = if order_type == OrderType::Market && m.1 > 0 {
                seq![Err::<Success, Failed>(Failed::NoMatch(id))]
            } else {
                Seq::<Result<Success, Failed>>::empty()
            };
            assert(records == head + m.2 + tail);
            assert(head.drop_first() == Seq::<Result<Success, Failed>>::empty());
            assert(credited_to(head, id) == 0 + credited_to(head.drop_first(), id));
            assert(debited_from_others(head, id) == 0 + debited_from_others(head.drop_first(), id));
            if tail.len() > 0 {
                assert(tail.drop_first() == Seq::<Result<Success, Failed>>::empty());
                assert(credited_to(tail, id) == 0 + credited_to(tail.drop_first(), id));
                assert(debited_from_others(tail, id) == 0 + debited_from_others(tail.drop_first(), id));
            }
            lemma_sums_concat(head, m.2, id);
            lemma_sums_concat(head + m.2, tail, id);
        },
    }
}

} // verus!
