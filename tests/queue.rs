use orderbook_core::{
    limit_order_cancel_request, new_market_order_request, BrokerAsset, Order, OrderIndex,
    OrderQueue, OrderRequestValidator, OrderSide, ValidationError,
};

fn ask(id: u64, price: u64, qty: u128) -> Order<BrokerAsset> {
    Order {
        order_id: id,
        order_asset: BrokerAsset::BTC,
        price_asset: BrokerAsset::USD,
        side: OrderSide::Ask,
        price,
        qty,
        order_creator: "q".to_string(),
        ts: id,
    }
}

#[test]
fn queue_insert_remove_reduce() {
    let mut q = OrderQueue::new(OrderSide::Ask);
    assert!(q.is_empty());
    assert!(q.peek_best().is_none());
    q.insert(ask(1, 20, 5));
    q.insert(ask(2, 10, 5));
    q.insert(ask(3, 20, 1));
    assert_eq!(q.len(), 3);
    assert_eq!(q.peek_best().unwrap().order_id, 2);
    assert!(q.contains(3));
    assert!(!q.contains(9));
    let ids: Vec<u64> = q.snapshot().iter().map(|o| o.id).collect();
    assert_eq!(ids, vec![2, 1, 3]);

    q.reduce_qty(1, 2);
    assert_eq!(
        q.snapshot()[1],
        OrderIndex { id: 1, side: OrderSide::Ask, price: 20, qty: 3, timestamp: 1 }
    );
    q.reduce_qty(1, 3);
    assert!(!q.contains(1));

    let gone = q.remove(2).unwrap();
    assert_eq!(gone.order_id, 2);
    assert!(q.remove(2).is_none());
    assert_eq!(q.peek_best().unwrap().order_id, 3);
}

#[test]
fn queue_amend_moves_to_back_of_level() {
    let mut q = OrderQueue::new(OrderSide::Ask);
    q.insert(ask(1, 10, 5));
    q.insert(ask(2, 10, 5));
    assert!(q.amend(1, 10, 4, 9));
    let ids: Vec<u64> = q.snapshot().iter().map(|o| o.id).collect();
    assert_eq!(ids, vec![2, 1]);
    assert!(!q.amend(7, 10, 4, 9));
}

#[test]
fn validator_checks_range_and_fields() {
    let v = OrderRequestValidator::new(BrokerAsset::BTC, BrokerAsset::USD, 1, 3);
    assert_eq!(v.validate(&limit_order_cancel_request(2, OrderSide::Bid)), Ok(()));
    assert_eq!(
        v.validate(&limit_order_cancel_request(4, OrderSide::Bid)),
        Err(ValidationError::BadSeqId)
    );
    assert_eq!(v.validate_cancel(0), Err(ValidationError::BadSeqId));
    assert_eq!(v.validate_amend(3, 1, 1), Ok(()));
    let req = new_market_order_request(
        BrokerAsset::BTC,
        BrokerAsset::USD,
        OrderSide::Ask,
        2,
        "m".to_string(),
        0,
    );
    assert_eq!(v.validate(&req), Ok(()));
    assert_eq!(
        v.validate_market(BrokerAsset::ETH, BrokerAsset::USD, 2, &"m".to_string()),
        Err(ValidationError::BadOrderAsset)
    );
    assert_eq!(
        v.validate_limit(BrokerAsset::BTC, BrokerAsset::USD, 0, 2, &"m".to_string()),
        Err(ValidationError::BadPriceValue)
    );
}

#[test]
fn side_defaults_to_bid() {
    assert_eq!(OrderSide::default(), OrderSide::Bid);
    assert_eq!(OrderSide::Bid.opposite(), OrderSide::Ask);
}
