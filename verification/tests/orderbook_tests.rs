use orderbook::asset::BrokerAsset;
use orderbook::decimal::Decimal;
use orderbook::domain::OrderId;
use orderbook::domain::OrderSide;
use orderbook::domain::OrderType;
use orderbook::orderbook::Failed;
use orderbook::orderbook::Orderbook;
use orderbook::orderbook::Success;
use orderbook::orders;
use orderbook::orders::OrderRequest;

fn dec(mantissa: i128, scale: u32) -> Decimal {
    Decimal::new(mantissa, scale)
}

fn accepted_id(result: &Result<Success, Failed>) -> OrderId {
    match result {
        Ok(Success::Accepted { order_id, .. }) => *order_id,
        other => panic!("expected Accepted, got {:?}", other),
    }
}

#[test]
fn cancel_nonexisting() {
    let id = OrderId::nil();
    let mut orderbook = Orderbook::new(BrokerAsset::BTC, BrokerAsset::USD);
    let request = orders::limit_order_cancel_request(id, OrderSide::Bid);
    let mut result = orderbook.process_order(request, 1);

    assert_eq!(result.len(), 1);
    match result.pop().unwrap() {
        Err(_) => (),
        _ => panic!("unexpected events"),
    }
}

#[test]
fn amend_order() {
    let btc_asset = BrokerAsset::BTC;
    let usd_asset = BrokerAsset::USD;
    let mut orderbook = Orderbook::new(btc_asset, usd_asset);
    let limit_order = orders::new_limit_order_request(
        btc_asset,
        usd_asset,
        OrderSide::Bid,
        dec(41711760112, 6),
        dec(15, 2),
        1,
    );

    let mut results = orderbook.process_order(limit_order, 1);
    assert_eq!(results.len(), 1);

    let order_id = accepted_id(&results.pop().expect("expected a Result"));
    let amend_order =
        orders::amend_order_request(order_id, OrderSide::Bid, dec(4000000, 2), dec(16, 2), 2);

    let mut results2 = orderbook.process_order(amend_order, 2);
    assert_eq!(results2.len(), 1);

    let order = orderbook.bid_queue.peek().unwrap();
    assert_eq!(order.order_id, order_id);
    assert_eq!(order.price, dec(4000000, 2));
    assert_eq!(order.qty, dec(16, 2));

    match results2.pop().expect("expected a Result").expect("this should be Success") {
        Success::Amended { price, qty, .. } => {
            assert_eq!(price, dec(4000000, 2));
            assert_eq!(qty, dec(16, 2));
        }
        other => panic!("expected Amended, got {:?}", other),
    }
}

#[test]
fn request_list() {
    let btc_asset = BrokerAsset::BTC;
    let usd_asset = BrokerAsset::USD;
    let mut orderbook = Orderbook::new(btc_asset, usd_asset);
    let request_list = vec![
        orders::new_limit_order_request(
            btc_asset,
            usd_asset,
            OrderSide::Bid,
            dec(41711760112, 6),
            dec(15, 2),
            1,
        ),
        orders::new_limit_order_request(
            btc_asset,
            usd_asset,
            OrderSide::Ask,
            dec(4171260777901, 8),
            dec(10223, 4),
            2,
        ),
        orders::new_limit_order_request(
            btc_asset,
            usd_asset,
            OrderSide::Bid,
            dec(101, 2),
            dec(4, 1),
            3,
        ),
        orders::new_limit_order_request(
            btc_asset,
            usd_asset,
            OrderSide::Ask,
            dec(103, 2),
            dec(5, 1),
            4,
        ),
        orders::new_market_order_request(btc_asset, usd_asset, OrderSide::Bid, dec(90, 2), 5),
        orders::new_limit_order_request(
            btc_asset,
            usd_asset,
            OrderSide::Ask,
            dec(105, 2),
            dec(5, 1),
            6,
        ),
        orders::new_limit_order_request(
            btc_asset,
            usd_asset,
            OrderSide::Bid,
            dec(106, 2),
            dec(6, 1),
            7,
        ),
    ];
    let mut now: u64 = 1;
    for order in request_list {
        let results = orderbook.process_order(order, now);
        for result in results {
            println!("\tResult => {:?}", result);
        }

        if let Some((bid, ask)) = orderbook.current_spread() {
            println!("Spread => bid: {:?}, ask: {:?}\n", bid, ask);
        }
        now += 1;
    }
}

/// The spread is defined only when both sides rest orders, a limit below
/// the best bid leaves the spread unchanged, a crossing ask trades at the
/// makers' prices while overlap lasts and rests its residual, and a market
/// order against the remaining book trades and then reports `NoMatch`.
#[test]
fn scenario_btc_usd_crossing() {
    let btc = BrokerAsset::BTC;
    let usd = BrokerAsset::USD;
    let mut book = Orderbook::new(btc, usd);

    // 1. limit bid 41711.760112 x 0.15: accepted, no spread yet
    let r1 = book.process_order(
        orders::new_limit_order_request(btc, usd, OrderSide::Bid, dec(41711760112, 6), dec(15, 2), 1),
        1,
    );
    assert_eq!(r1.len(), 1);
    let bid1 = accepted_id(&r1[0]);
    assert!(book.current_spread().is_none());

    // 2. limit ask 41712.60777901 x 1.0223: accepted, spread defined
    let r2 = book.process_order(
        orders::new_limit_order_request(
            btc,
            usd,
            OrderSide::Ask,
            dec(4171260777901, 8),
            dec(10223, 4),
            2,
        ),
        2,
    );
    assert_eq!(r2.len(), 1);
    let ask1 = accepted_id(&r2[0]);
    let (bid_price, ask_price) = book.current_spread().unwrap();
    assert_eq!(bid_price, dec(41711760112, 6));
    assert_eq!(ask_price, dec(4171260777901, 8));

    // 3. limit bid 1.01 x 0.4 rests below the best bid; spread unchanged
    let r3 = book.process_order(
        orders::new_limit_order_request(btc, usd, OrderSide::Bid, dec(101, 2), dec(4, 1), 3),
        3,
    );
    assert_eq!(r3.len(), 1);
    let bid2 = accepted_id(&r3[0]);
    let (bid_price, _) = book.current_spread().unwrap();
    assert_eq!(bid_price, dec(41711760112, 6));

    // 4. limit ask 1.03 x 0.5 crosses the best bid (1.03 <= 41711.760112):
    // it trades 0.15 at the maker's price, stops once the next bid (1.01)
    // no longer overlaps 1.03, and rests the residual 0.35 at 1.03.
    let r4 = book.process_order(
        orders::new_limit_order_request(btc, usd, OrderSide::Ask, dec(103, 2), dec(5, 1), 4),
        4,
    );
    assert_eq!(r4.len(), 3);
    let ask2 = accepted_id(&r4[0]);
    match &r4[1] {
        Ok(Success::PartiallyFilled { order_id, side, order_type, price, qty, .. }) => {
            assert_eq!(*order_id, ask2);
            assert_eq!(*side, OrderSide::Ask);
            assert_eq!(*order_type, OrderType::Limit);
            assert_eq!(*price, dec(41711760112, 6));
            assert_eq!(*qty, dec(15, 2));
        }
        other => panic!("expected PartiallyFilled, got {:?}", other),
    }
    match &r4[2] {
        Ok(Success::Filled { order_id, side, order_type, price, qty, .. }) => {
            assert_eq!(*order_id, bid1);
            assert_eq!(*side, OrderSide::Bid);
            assert_eq!(*order_type, OrderType::Limit);
            assert_eq!(*price, dec(41711760112, 6));
            assert_eq!(*qty, dec(15, 2));
        }
        other => panic!("expected Filled, got {:?}", other),
    }
    // the residual rests: spread is now (1.01, 1.03) and the ask best has
    // the exact remaining quantity 0.50 - 0.15 = 0.35
    let (bid_price, ask_price) = book.current_spread().unwrap();
    assert_eq!(bid_price, dec(101, 2));
    assert_eq!(ask_price, dec(103, 2));
    let best_ask = book.ask_queue.peek().unwrap();
    assert_eq!(best_ask.order_id, ask2);
    assert!(best_ask.qty.value_eq(&dec(35, 2)));

    // 5. market bid 0.90: it takes the resting 0.35 at 1.03, then — a
    // market order never checks overlap — trades its remaining 0.55
    // against the ask from step 2 at that maker's price and is filled
    let r5 = book.process_order(
        orders::new_market_order_request(btc, usd, OrderSide::Bid, dec(90, 2), 5),
        5,
    );
    assert_eq!(r5.len(), 5);
    let market_id = accepted_id(&r5[0]);
    match &r5[1] {
        Ok(Success::PartiallyFilled { order_id, side, order_type, price, qty, .. }) => {
            assert_eq!(*order_id, market_id);
            assert_eq!(*side, OrderSide::Bid);
            assert_eq!(*order_type, OrderType::Market);
            assert_eq!(*price, dec(103, 2));
            assert!(qty.value_eq(&dec(35, 2)));
        }
        other => panic!("expected PartiallyFilled, got {:?}", other),
    }
    match &r5[2] {
        Ok(Success::Filled { order_id, side, .. }) => {
            assert_eq!(*order_id, ask2);
            assert_eq!(*side, OrderSide::Ask);
        }
        other => panic!("expected Filled, got {:?}", other),
    }
    match &r5[3] {
        Ok(Success::Filled { order_id, side, order_type, price, qty, .. }) => {
            assert_eq!(*order_id, market_id);
            assert_eq!(*side, OrderSide::Bid);
            assert_eq!(*order_type, OrderType::Market);
            assert_eq!(*price, dec(4171260777901, 8));
            assert!(qty.value_eq(&dec(55, 2)));
        }
        other => panic!("expected Filled, got {:?}", other),
    }
    match &r5[4] {
        Ok(Success::PartiallyFilled { order_id, side, price, qty, .. }) => {
            assert_eq!(*order_id, ask1);
            assert_eq!(*side, OrderSide::Ask);
            assert_eq!(*price, dec(4171260777901, 8));
            assert!(qty.value_eq(&dec(55, 2)));
        }
        other => panic!("expected PartiallyFilled, got {:?}", other),
    }

    // 6. cancelling the nil id is rejected with the order-id reason
    let r6 = book.process_order(orders::limit_order_cancel_request(OrderId::nil(), OrderSide::Bid), 6);
    assert_eq!(r6.len(), 1);
    match &r6[0] {
        Err(Failed::ValidationFailed(e)) => assert_eq!(e.message(), "order ID invalid"),
        other => panic!("expected ValidationFailed, got {:?}", other),
    }

    // 7. amending a resting bid changes what peek returns and what the
    // Amended event reports
    let r7 = book.process_order(
        orders::amend_order_request(bid2, OrderSide::Bid, dec(102, 2), dec(3, 1), 7),
        7,
    );
    assert_eq!(r7.len(), 1);
    match &r7[0] {
        Ok(Success::Amended { order_id, price, qty, .. }) => {
            assert_eq!(*order_id, bid2);
            assert_eq!(*price, dec(102, 2));
            assert_eq!(*qty, dec(3, 1));
        }
        other => panic!("expected Amended, got {:?}", other),
    }
    let best_bid = book.bid_queue.peek().unwrap();
    assert_eq!(best_bid.order_id, bid2);
    assert_eq!(best_bid.price, dec(102, 2));
    assert_eq!(best_bid.qty, dec(3, 1));
}

/// A market order against an empty book is accepted and then reports
/// `NoMatch` only.
#[test]
fn market_order_empty_book() {
    let mut book = Orderbook::new(BrokerAsset::BTC, BrokerAsset::USD);
    let r = book.process_order(
        orders::new_market_order_request(
            BrokerAsset::BTC,
            BrokerAsset::USD,
            OrderSide::Bid,
            dec(90, 2),
            1,
        ),
        1,
    );
    assert_eq!(r.len(), 2);
    let id = accepted_id(&r[0]);
    match &r[1] {
        Err(Failed::NoMatch(order_id)) => assert_eq!(*order_id, id),
        other => panic!("expected NoMatch, got {:?}", other),
    }
}

/// A limit at exactly the opposite best price crosses, and an exact
/// quantity match fills both orders completely.
#[test]
fn limit_at_exact_opposite_price_crosses() {
    let btc = BrokerAsset::BTC;
    let usd = BrokerAsset::USD;
    let mut book = Orderbook::new(btc, usd);
    let r1 = book.process_order(
        orders::new_limit_order_request(btc, usd, OrderSide::Bid, dec(100, 0), dec(2, 0), 1),
        1,
    );
    let bid = accepted_id(&r1[0]);
    let r2 = book.process_order(
        orders::new_limit_order_request(btc, usd, OrderSide::Ask, dec(100, 0), dec(2, 0), 2),
        2,
    );
    assert_eq!(r2.len(), 3);
    let ask = accepted_id(&r2[0]);
    match &r2[1] {
        Ok(Success::Filled { order_id, side, price, qty, .. }) => {
            assert_eq!(*order_id, ask);
            assert_eq!(*side, OrderSide::Ask);
            assert_eq!(*price, dec(100, 0));
            assert_eq!(*qty, dec(2, 0));
        }
        other => panic!("expected Filled, got {:?}", other),
    }
    match &r2[2] {
        Ok(Success::Filled { order_id, side, .. }) => {
            assert_eq!(*order_id, bid);
            assert_eq!(*side, OrderSide::Bid);
        }
        other => panic!("expected Filled, got {:?}", other),
    }
    // both sides are empty again
    assert!(book.bid_queue.peek().is_none());
    assert!(book.ask_queue.peek().is_none());
}

/// Resting an order and cancelling it restores the book; a second cancel of
/// the same id reports `OrderNotFound`.
#[test]
fn insert_then_cancel_roundtrip() {
    let btc = BrokerAsset::BTC;
    let usd = BrokerAsset::USD;
    let mut book = Orderbook::new(btc, usd);
    let r0 = book.process_order(
        orders::new_limit_order_request(btc, usd, OrderSide::Bid, dec(100, 0), dec(1, 0), 1),
        1,
    );
    let keeper = accepted_id(&r0[0]);

    let r1 = book.process_order(
        orders::new_limit_order_request(btc, usd, OrderSide::Bid, dec(101, 0), dec(1, 0), 2),
        2,
    );
    let id = accepted_id(&r1[0]);
    assert_eq!(book.bid_queue.peek().unwrap().order_id, id);

    let r2 = book.process_order(orders::limit_order_cancel_request(id, OrderSide::Bid), 3);
    assert_eq!(r2.len(), 1);
    match &r2[0] {
        Ok(Success::Cancelled { order_id, .. }) => assert_eq!(*order_id, id),
        other => panic!("expected Cancelled, got {:?}", other),
    }
    // the prior book is restored: the first bid is best again
    assert_eq!(book.bid_queue.peek().unwrap().order_id, keeper);

    let r3 = book.process_order(orders::limit_order_cancel_request(id, OrderSide::Bid), 4);
    assert_eq!(r3.len(), 1);
    match &r3[0] {
        Err(Failed::OrderNotFound(order_id)) => assert_eq!(*order_id, id),
        other => panic!("expected OrderNotFound, got {:?}", other),
    }
}

/// Amending an order with identical price and quantity still refreshes its
/// timestamp, so it loses priority to a same-price order that arrived
/// earlier.
#[test]
fn amend_refreshes_priority() {
    let btc = BrokerAsset::BTC;
    let usd = BrokerAsset::USD;
    let mut book = Orderbook::new(btc, usd);
    let ra = book.process_order(
        orders::new_limit_order_request(btc, usd, OrderSide::Bid, dec(100, 0), dec(1, 0), 1),
        1,
    );
    let first = accepted_id(&ra[0]);
    let rb = book.process_order(
        orders::new_limit_order_request(btc, usd, OrderSide::Bid, dec(100, 0), dec(1, 0), 2),
        2,
    );
    let second = accepted_id(&rb[0]);
    // same price: the earlier order stands first
    assert_eq!(book.bid_queue.peek().unwrap().order_id, first);

    // amend the first order with identical price and quantity
    let rc = book.process_order(
        orders::amend_order_request(first, OrderSide::Bid, dec(100, 0), dec(1, 0), 3),
        3,
    );
    assert_eq!(rc.len(), 1);
    assert!(matches!(&rc[0], Ok(Success::Amended { .. })));
    // it now stands behind the other order at the same price
    assert_eq!(book.bid_queue.peek().unwrap().order_id, second);
}

/// A new limit whose id collides with a live order is accepted and then
/// fails to rest with `DuplicateOrderID`, leaving the book unchanged.
#[test]
fn duplicate_order_id_detected() {
    let btc = BrokerAsset::BTC;
    let usd = BrokerAsset::USD;
    let mut book = Orderbook::new(btc, usd);
    let id = OrderId(7);
    let first = OrderRequest::NewLimitOrder {
        order_id: id,
        order_asset: btc,
        price_asset: usd,
        side: OrderSide::Bid,
        price: dec(100, 0),
        qty: dec(1, 0),
        ts: 1,
    };
    let r1 = book.process_order(first, 1);
    assert_eq!(r1.len(), 1);
    let second = OrderRequest::NewLimitOrder {
        order_id: id,
        order_asset: btc,
        price_asset: usd,
        side: OrderSide::Bid,
        price: dec(99, 0),
        qty: dec(2, 0),
        ts: 2,
    };
    let r2 = book.process_order(second, 2);
    assert_eq!(r2.len(), 2);
    assert!(matches!(&r2[0], Ok(Success::Accepted { .. })));
    match &r2[1] {
        Err(Failed::DuplicateOrderID(order_id)) => assert_eq!(*order_id, id),
        other => panic!("expected DuplicateOrderID, got {:?}", other),
    }
    // the original order still rests unchanged
    let best = book.bid_queue.peek().unwrap();
    assert_eq!(best.price, dec(100, 0));
    assert_eq!(best.qty, dec(1, 0));
}

/// A market order sweeps resting asks in price-time priority order.
#[test]
fn market_order_fills_in_priority_order() {
    let btc = BrokerAsset::BTC;
    let usd = BrokerAsset::USD;
    let mut book = Orderbook::new(btc, usd);
    let r1 = book.process_order(
        orders::new_limit_order_request(btc, usd, OrderSide::Ask, dec(102, 0), dec(1, 0), 1),
        1,
    );
    let high = accepted_id(&r1[0]);
    let r2 = book.process_order(
        orders::new_limit_order_request(btc, usd, OrderSide::Ask, dec(101, 0), dec(1, 0), 2),
        2,
    );
    let low = accepted_id(&r2[0]);

    let r3 = book.process_order(
        orders::new_market_order_request(btc, usd, OrderSide::Bid, dec(2, 0), 3),
        3,
    );
    // accepted, then two full rounds: the cheaper ask first
    assert_eq!(r3.len(), 5);
    match &r3[2] {
        Ok(Success::Filled { order_id, price, .. }) => {
            assert_eq!(*order_id, low);
            assert_eq!(*price, dec(101, 0));
        }
        other => panic!("expected Filled, got {:?}", other),
    }
    match &r3[4] {
        Ok(Success::Filled { order_id, price, .. }) => {
            assert_eq!(*order_id, high);
            assert_eq!(*price, dec(102, 0));
        }
        other => panic!("expected Filled, got {:?}", other),
    }
}
