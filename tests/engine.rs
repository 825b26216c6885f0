use orderbook_core::{
    amend_order_request, limit_order_cancel_request, new_limit_order_request,
    new_market_order_request, BrokerAsset, Failed, OrderIndex, OrderSide, OrderType, Orderbook,
    Success, ValidationError,
};

// Prices are in tenths of a price unit, quantities in tenths of a lot:
// 10.0 is written 100 and 0.5 is written 5.

fn book() -> Orderbook<BrokerAsset> {
    Orderbook::new(BrokerAsset::BTC, BrokerAsset::USD)
}

fn limit(b: &mut Orderbook<BrokerAsset>, side: OrderSide, price: u64, qty: u128) -> Vec<Result<Success, Failed>> {
    b.process_order(new_limit_order_request(
        BrokerAsset::BTC,
        BrokerAsset::USD,
        side,
        price,
        qty,
        "trader".to_string(),
        7,
    ))
}

fn market(b: &mut Orderbook<BrokerAsset>, side: OrderSide, qty: u128) -> Vec<Result<Success, Failed>> {
    b.process_order(new_market_order_request(
        BrokerAsset::BTC,
        BrokerAsset::USD,
        side,
        qty,
        "trader".to_string(),
        7,
    ))
}

fn fill(id: u64, side: OrderSide, t: OrderType, price: u64, qty: u128, done: bool) -> Result<Success, Failed> {
    if done {
        Ok(Success::Filled {
            order_id: id,
            side,
            order_type: t,
            price,
            qty,
            order_creator: "trader".to_string(),
            ts: 7,
        })
    } else {
        Ok(Success::PartiallyFilled {
            order_id: id,
            side,
            order_type: t,
            price,
            qty,
            order_creator: "trader".to_string(),
            ts: 7,
        })
    }
}

fn accepted(id: u64, t: OrderType) -> Result<Success, Failed> {
    Ok(Success::Accepted { id, order_type: t, order_creator: "trader".to_string(), ts: 7 })
}

#[test]
fn market_order_on_empty_book() {
    let mut b = book();
    let r = market(&mut b, OrderSide::Bid, 20);
    assert_eq!(r, vec![accepted(1, OrderType::Market), Err(Failed::NoMatch(1))]);
    assert!(b.get_ask_queue().is_empty());
    assert!(b.get_bid_queue().is_empty());
}

#[test]
fn limit_ask_crosses_resting_bid() {
    let mut b = book();
    let r = limit(&mut b, OrderSide::Bid, 100, 10);
    assert_eq!(r, vec![accepted(1, OrderType::Limit)]);
    let r = limit(&mut b, OrderSide::Ask, 90, 5);
    assert_eq!(
        r,
        vec![
            accepted(2, OrderType::Limit),
            fill(2, OrderSide::Ask, OrderType::Limit, 100, 5, true),
            fill(1, OrderSide::Bid, OrderType::Limit, 100, 5, false),
        ]
    );
    assert_eq!(
        b.get_bid_queue(),
        vec![OrderIndex { id: 1, side: OrderSide::Bid, price: 100, qty: 5, timestamp: 7 }]
    );
    assert!(b.get_ask_queue().is_empty());
}

#[test]
fn market_ask_sweeps_two_bids() {
    let mut b = book();
    limit(&mut b, OrderSide::Bid, 100, 10);
    limit(&mut b, OrderSide::Bid, 120, 10);
    let r = market(&mut b, OrderSide::Ask, 15);
    assert_eq!(
        r,
        vec![
            accepted(3, OrderType::Market),
            fill(3, OrderSide::Ask, OrderType::Market, 120, 10, false),
            fill(2, OrderSide::Bid, OrderType::Limit, 120, 10, true),
            fill(3, OrderSide::Ask, OrderType::Market, 100, 5, true),
            fill(1, OrderSide::Bid, OrderType::Limit, 100, 5, false),
        ]
    );
    assert_eq!(b.current_spread(), None);
    assert_eq!(
        b.get_bid_queue(),
        vec![OrderIndex { id: 1, side: OrderSide::Bid, price: 100, qty: 5, timestamp: 7 }]
    );
}

#[test]
fn crossing_bid_consumes_asks() {
    let mut b = book();
    limit(&mut b, OrderSide::Bid, 100, 10);
    limit(&mut b, OrderSide::Ask, 120, 5);
    limit(&mut b, OrderSide::Ask, 125, 25);
    assert_eq!(b.current_spread(), Some((100, 120)));
    let r = limit(&mut b, OrderSide::Bid, 140, 15);
    assert_eq!(
        r,
        vec![
            accepted(4, OrderType::Limit),
            fill(4, OrderSide::Bid, OrderType::Limit, 120, 5, false),
            fill(2, OrderSide::Ask, OrderType::Limit, 120, 5, true),
            fill(4, OrderSide::Bid, OrderType::Limit, 125, 10, true),
            fill(3, OrderSide::Ask, OrderType::Limit, 125, 10, false),
        ]
    );
    assert_eq!(b.current_spread(), Some((100, 125)));
    assert_eq!(
        b.get_ask_queue(),
        vec![OrderIndex { id: 3, side: OrderSide::Ask, price: 125, qty: 15, timestamp: 7 }]
    );
}

#[test]
fn matched_quantity_is_conserved() {
    let mut b = book();
    limit(&mut b, OrderSide::Ask, 50, 3);
    limit(&mut b, OrderSide::Ask, 51, 4);
    limit(&mut b, OrderSide::Ask, 52, 8);
    let before: u128 = b.get_ask_queue().iter().map(|o| o.qty).sum();
    let r = limit(&mut b, OrderSide::Bid, 51, 10);
    let after: u128 = b.get_ask_queue().iter().map(|o| o.qty).sum();
    let mut incoming = 0u128;
    let mut resting = 0u128;
    for rec in &r {
        match rec {
            Ok(Success::Filled { order_id, qty, .. }) | Ok(Success::PartiallyFilled { order_id, qty, .. }) => {
                if *order_id == 4 {
                    incoming += *qty;
                } else {
                    resting += *qty;
                }
            }
            _ => {}
        }
    }
    assert_eq!(incoming, 7);
    assert_eq!(resting, 7);
    assert_eq!(before - after, 7);
    // the unmatched 3 rest as a bid at 51
    assert_eq!(
        b.get_bid_queue(),
        vec![OrderIndex { id: 4, side: OrderSide::Bid, price: 51, qty: 3, timestamp: 7 }]
    );
}

#[test]
fn queues_stay_sorted_and_fifo() {
    let mut b = book();
    limit(&mut b, OrderSide::Bid, 100, 1);
    limit(&mut b, OrderSide::Bid, 110, 1);
    limit(&mut b, OrderSide::Bid, 100, 2);
    limit(&mut b, OrderSide::Ask, 130, 1);
    limit(&mut b, OrderSide::Ask, 120, 1);
    limit(&mut b, OrderSide::Ask, 130, 2);
    let bids: Vec<u64> = b.get_bid_queue().iter().map(|o| o.id).collect();
    let asks: Vec<u64> = b.get_ask_queue().iter().map(|o| o.id).collect();
    assert_eq!(bids, vec![2, 1, 3]);
    assert_eq!(asks, vec![5, 4, 6]);
    let (bid, ask) = b.current_spread().unwrap();
    assert!(bid < ask);
}

#[test]
fn equal_prices_fill_in_arrival_order() {
    let mut b = book();
    limit(&mut b, OrderSide::Ask, 100, 2);
    limit(&mut b, OrderSide::Ask, 100, 2);
    let r = market(&mut b, OrderSide::Bid, 3);
    assert_eq!(r[2], fill(1, OrderSide::Ask, OrderType::Limit, 100, 2, true));
    assert_eq!(r[4], fill(2, OrderSide::Ask, OrderType::Limit, 100, 1, false));
}

#[test]
fn cancel_of_absent_id_changes_nothing() {
    let mut b = book();
    limit(&mut b, OrderSide::Bid, 100, 10);
    limit(&mut b, OrderSide::Ask, 120, 10);
    let bids = b.get_bid_queue();
    let asks = b.get_ask_queue();
    for _ in 0..3 {
        let r = b.process_order(limit_order_cancel_request(1, OrderSide::Ask));
        assert_eq!(r, vec![Err(Failed::OrderNotFound(1))]);
        assert_eq!(b.get_bid_queue(), bids);
        assert_eq!(b.get_ask_queue(), asks);
    }
}

#[test]
fn cancel_out_of_range_is_refused() {
    let mut b = book();
    limit(&mut b, OrderSide::Bid, 100, 10);
    let r = b.process_order(limit_order_cancel_request(0, OrderSide::Bid));
    assert_eq!(r, vec![Err(Failed::ValidationFailed(ValidationError::BadSeqId))]);
    let r = b.process_order(limit_order_cancel_request(2, OrderSide::Bid));
    assert_eq!(r, vec![Err(Failed::ValidationFailed(ValidationError::BadSeqId))]);
}

#[test]
fn limit_then_cancel_restores_book() {
    let mut b = book();
    limit(&mut b, OrderSide::Bid, 100, 10);
    limit(&mut b, OrderSide::Ask, 120, 10);
    let bids = b.get_bid_queue();
    let asks = b.get_ask_queue();
    let r = limit(&mut b, OrderSide::Bid, 110, 4);
    assert_eq!(r, vec![accepted(3, OrderType::Limit)]);
    let r = b.process_order(limit_order_cancel_request(3, OrderSide::Bid));
    assert_eq!(r, vec![Ok(Success::Cancelled { id: 3, ts: 7 })]);
    assert_eq!(b.get_bid_queue(), bids);
    assert_eq!(b.get_ask_queue(), asks);
    // the id is not handed out again
    let r = limit(&mut b, OrderSide::Bid, 90, 1);
    assert_eq!(r, vec![accepted(4, OrderType::Limit)]);
}

#[test]
fn amend_moves_order_to_new_price() {
    let mut b = book();
    limit(&mut b, OrderSide::Bid, 100, 10);
    limit(&mut b, OrderSide::Bid, 95, 10);
    let r = b.process_order(amend_order_request(1, OrderSide::Bid, 90, 4, 9));
    assert_eq!(r, vec![Ok(Success::Amended { id: 1, price: 90, qty: 4, ts: 9 })]);
    assert_eq!(
        b.get_bid_queue(),
        vec![
            OrderIndex { id: 2, side: OrderSide::Bid, price: 95, qty: 10, timestamp: 7 },
            OrderIndex { id: 1, side: OrderSide::Bid, price: 90, qty: 4, timestamp: 9 },
        ]
    );
    let r = b.process_order(amend_order_request(1, OrderSide::Ask, 90, 4, 9));
    assert_eq!(r, vec![Err(Failed::OrderNotFound(1))]);
}

#[test]
fn validation_errors() {
    let mut b = book();
    let r = b.process_order(new_limit_order_request(
        BrokerAsset::ETH,
        BrokerAsset::USD,
        OrderSide::Bid,
        10,
        1,
        "x".to_string(),
        0,
    ));
    assert_eq!(r, vec![Err(Failed::ValidationFailed(ValidationError::BadOrderAsset))]);
    let r = b.process_order(new_market_order_request(
        BrokerAsset::BTC,
        BrokerAsset::EUR,
        OrderSide::Bid,
        1,
        "x".to_string(),
        0,
    ));
    assert_eq!(r, vec![Err(Failed::ValidationFailed(ValidationError::BadPriceAsset))]);
    let r = b.process_order(new_limit_order_request(
        BrokerAsset::BTC,
        BrokerAsset::USD,
        OrderSide::Bid,
        0,
        1,
        "x".to_string(),
        0,
    ));
    assert_eq!(r, vec![Err(Failed::ValidationFailed(ValidationError::BadPriceValue))]);
    let r = b.process_order(new_market_order_request(
        BrokerAsset::BTC,
        BrokerAsset::USD,
        OrderSide::Ask,
        0,
        "x".to_string(),
        0,
    ));
    assert_eq!(r, vec![Err(Failed::ValidationFailed(ValidationError::BadQuantityValue))]);
    let r = b.process_order(new_limit_order_request(
        BrokerAsset::BTC,
        BrokerAsset::USD,
        OrderSide::Ask,
        5,
        1,
        String::new(),
        0,
    ));
    assert_eq!(r, vec![Err(Failed::ValidationFailed(ValidationError::BadOrderCreator))]);
    // nothing was accepted, so the first good order still gets id 1
    let r = limit(&mut b, OrderSide::Bid, 10, 1);
    assert_eq!(r, vec![accepted(1, OrderType::Limit)]);
    let r = b.process_order(amend_order_request(1, OrderSide::Bid, 0, 1, 0));
    assert_eq!(r, vec![Err(Failed::ValidationFailed(ValidationError::BadPriceValue))]);
    let r = b.process_order(amend_order_request(1, OrderSide::Bid, 3, 0, 0));
    assert_eq!(r, vec![Err(Failed::ValidationFailed(ValidationError::BadQuantityValue))]);
    assert_eq!(ValidationError::BadSeqId.message(), "order ID out of range");
}

#[test]
fn parse_broker_assets() {
    assert_eq!(orderbook_core::parse_asset("BTC"), Some(BrokerAsset::BTC));
    assert_eq!(orderbook_core::parse_asset("USD"), Some(BrokerAsset::USD));
    assert_eq!(orderbook_core::parse_asset("EUR"), Some(BrokerAsset::EUR));
    assert_eq!(orderbook_core::parse_asset("ETH"), Some(BrokerAsset::ETH));
    assert_eq!(orderbook_core::parse_asset("XRP"), None);
}

#[test]
fn largest_quantity_fills_exactly() {
    let mut b = book();
    limit(&mut b, OrderSide::Ask, 1, u128::MAX);
    let r = market(&mut b, OrderSide::Bid, u128::MAX);
    assert_eq!(r[1], fill(2, OrderSide::Bid, OrderType::Market, 1, u128::MAX, true));
    assert!(b.get_ask_queue().is_empty());
}
