use orderbook_core::market::{get_token_account, parse_side, process_orderbook_result};
use orderbook_core::{Asset, Failed, Market, OrderSide, OrderType, Success, TokenTransfer};

// Prices below are in hundredths of a token.

#[test]
fn get_ask_order() {
    let mut contract = Market::new();

    let spread = contract.get_current_spread();
    println!("Spread => Ask: {}, Bid: {}", spread[0], spread[1]);
    assert_eq!(spread[0], 0);
    assert_eq!(spread[1], 0);

    let res = contract.post_transfer(125, 2, "Ask".to_string(), "prince_near".to_string(), 0);
    println!("Ask Result: {:?}", res);

    let res2 = contract.post_transfer(122, 1, "Bid".to_string(), "prince_near".to_string(), 0);
    println!("Bid Result: {:?}", res2);

    let spread = contract.get_current_spread();
    println!("Spread => Ask: {}, Bid: {}", spread[0], spread[1]);
    assert_eq!(spread[0], 125);
    assert_eq!(spread[1], 122);
}

#[test]
fn parse_side_names() {
    assert_eq!(parse_side("Ask"), Some(OrderSide::Ask));
    assert_eq!(parse_side("Bid"), Some(OrderSide::Bid));
    assert_eq!(parse_side("bid"), None);
    assert_eq!(parse_side(""), None);
}

#[test]
fn token_accounts() {
    assert_eq!(get_token_account(OrderSide::Ask), "ft.hacker.testnet");
    assert_eq!(get_token_account(OrderSide::Bid), "dai.hacker.testnet");
    assert_eq!(Asset::default(), Asset::nFT);
}

#[test]
fn market_lists_and_cancels() {
    let mut m = Market::new();
    m.post_transfer(130, 3, "Ask".to_string(), "alice".to_string(), 1);
    m.post_transfer(120, 4, "Bid".to_string(), "bob".to_string(), 2);
    let asks = m.get_ask_orders();
    let bids = m.get_bid_orders();
    assert_eq!(asks.len(), 1);
    assert_eq!(bids.len(), 1);
    assert_eq!(asks[0].id, 1);
    assert_eq!(asks[0].qty, 3);
    assert_eq!(bids[0].id, 2);
    assert_eq!(bids[0].price, 120);

    let r = m.cancel_limit_order(1, "Ask".to_string());
    assert_eq!(r, vec![Ok(Success::Cancelled { id: 1, ts: 1 })]);
    assert!(m.get_ask_orders().is_empty());
    let r = m.cancel_limit_order(1, "Ask".to_string());
    assert_eq!(r, vec![Err(Failed::OrderNotFound(1))]);
    assert_eq!(m.get_current_spread(), vec![0, 0]);
}

#[test]
fn settlement_pays_each_fill_in_the_other_token() {
    let mut m = Market::new();
    m.post_transfer(100, 5, "Bid".to_string(), "bob".to_string(), 1);
    let res = m.post_transfer(90, 2, "Ask".to_string(), "alice".to_string(), 2);
    let transfers = process_orderbook_result(&res);
    assert_eq!(
        transfers,
        vec![
            TokenTransfer {
                token_account: "dai.hacker.testnet".to_string(),
                receiver: "alice".to_string(),
                amount: 2,
            },
            TokenTransfer {
                token_account: "ft.hacker.testnet".to_string(),
                receiver: "bob".to_string(),
                amount: 2,
            },
        ]
    );
}

#[test]
fn settlement_ignores_other_records() {
    let res = vec![
        Ok(Success::Accepted {
            id: 1,
            order_type: OrderType::Limit,
            order_creator: "a".to_string(),
            ts: 0,
        }),
        Ok(Success::Cancelled { id: 1, ts: 0 }),
        Err(Failed::NoMatch(1)),
    ];
    assert!(process_orderbook_result(&res).is_empty());
}
