use orderbook::asset::parse_asset;
use orderbook::asset::BrokerAsset;
use orderbook::decimal::Decimal;
use orderbook::domain::OrderSide;
use orderbook::domain::OrderType;
use orderbook::orderbook::Failed;
use orderbook::orderbook::Orderbook;
use orderbook::orders;
use orderbook::validation::ValidationError;

fn dec(mantissa: i128, scale: u32) -> Decimal {
    Decimal::new(mantissa, scale)
}

#[test]
fn decimal_comparison_is_by_value() {
    // equal values under different representations
    assert!(dec(15, 2).value_eq(&dec(1500, 4)));
    assert!(dec(1, 0).value_eq(&dec(1000000000000000000, 18)));
    // strict order across scales
    assert!(dec(15, 2).lt(&dec(16, 2)));
    assert!(dec(1001, 3).lt(&dec(102, 2)));
    assert!(!dec(102, 2).lt(&dec(1001, 3)));
    assert!(dec(-1, 0).lt(&dec(0, 0)));
    assert!(dec(15, 2).le(&dec(1500, 4)));
    assert!(!dec(16, 2).le(&dec(15, 2)));
}

#[test]
fn decimal_subtraction_is_exact() {
    // 1.0223 - 0.15 = 0.8723, kept at the larger scale
    let r = dec(10223, 4).minus(&dec(15, 2));
    assert_eq!(r, dec(8723, 4));
    // 0.5 - 0.15 = 0.35
    let r = dec(5, 1).minus(&dec(15, 2));
    assert_eq!(r, dec(35, 2));
    // same scale
    let r = dec(16, 2).minus(&dec(15, 2));
    assert_eq!(r, dec(1, 2));
}

#[test]
fn decimal_positivity() {
    assert!(dec(1, 18).is_positive());
    assert!(!dec(0, 5).is_positive());
    assert!(!dec(-3, 2).is_positive());
}

#[test]
fn order_side_from_string_ignores_case() {
    assert_eq!(OrderSide::from_string("bid"), Some(OrderSide::Bid));
    assert_eq!(OrderSide::from_string("BID"), Some(OrderSide::Bid));
    assert_eq!(OrderSide::from_string("Ask"), Some(OrderSide::Ask));
    assert_eq!(OrderSide::from_string("ask"), Some(OrderSide::Ask));
    assert_eq!(OrderSide::from_string("hold"), None);
    assert_eq!(OrderSide::from_string(""), None);
}

#[test]
fn side_and_type_names() {
    assert_eq!(OrderSide::Bid.to_string(), "bid");
    assert_eq!(OrderSide::Ask.to_string(), "ask");
    assert_eq!(OrderType::Market.to_string(), "market");
    assert_eq!(OrderType::Limit.to_string(), "limit");
}

#[test]
fn parse_asset_symbols() {
    assert_eq!(parse_asset("USD"), Some(BrokerAsset::USD));
    assert_eq!(parse_asset("EUR"), Some(BrokerAsset::EUR));
    assert_eq!(parse_asset("BTC"), Some(BrokerAsset::BTC));
    assert_eq!(parse_asset("ETH"), Some(BrokerAsset::ETH));
    assert_eq!(parse_asset("usd"), None);
    assert_eq!(parse_asset("DOGE"), None);
}

fn expect_validation_failure(events: Vec<Result<orderbook::orderbook::Success, Failed>>) -> ValidationError {
    assert_eq!(events.len(), 1);
    match &events[0] {
        Err(Failed::ValidationFailed(e)) => *e,
        other => panic!("expected ValidationFailed, got {:?}", other),
    }
}

#[test]
fn validator_rejects_wrong_assets() {
    let mut book = Orderbook::new(BrokerAsset::BTC, BrokerAsset::USD);
    let r = book.process_order(
        orders::new_limit_order_request(
            BrokerAsset::ETH,
            BrokerAsset::USD,
            OrderSide::Bid,
            dec(100, 0),
            dec(1, 0),
            1,
        ),
        1,
    );
    let e = expect_validation_failure(r);
    assert_eq!(e, ValidationError::BadOrderAsset);
    assert_eq!(e.message(), "bad order asset");

    let r = book.process_order(
        orders::new_market_order_request(
            BrokerAsset::BTC,
            BrokerAsset::EUR,
            OrderSide::Bid,
            dec(1, 0),
            2,
        ),
        2,
    );
    let e = expect_validation_failure(r);
    assert_eq!(e, ValidationError::BadPriceAsset);
    assert_eq!(e.message(), "bad price asset");
    // nothing rested
    assert!(book.bid_queue.peek().is_none());
}

#[test]
fn validator_rejects_non_positive_price_and_qty() {
    let mut book = Orderbook::new(BrokerAsset::BTC, BrokerAsset::USD);
    let r = book.process_order(
        orders::new_limit_order_request(
            BrokerAsset::BTC,
            BrokerAsset::USD,
            OrderSide::Bid,
            dec(0, 0),
            dec(1, 0),
            1,
        ),
        1,
    );
    let e = expect_validation_failure(r);
    assert_eq!(e, ValidationError::BadPriceValue);
    assert_eq!(e.message(), "price must be non-negative");

    let r = book.process_order(
        orders::new_limit_order_request(
            BrokerAsset::BTC,
            BrokerAsset::USD,
            OrderSide::Bid,
            dec(-5, 0),
            dec(1, 0),
            2,
        ),
        2,
    );
    assert_eq!(expect_validation_failure(r), ValidationError::BadPriceValue);

    let r = book.process_order(
        orders::new_market_order_request(
            BrokerAsset::BTC,
            BrokerAsset::USD,
            OrderSide::Ask,
            dec(0, 2),
            3,
        ),
        3,
    );
    let e = expect_validation_failure(r);
    assert_eq!(e, ValidationError::BadQuantityValue);
    assert_eq!(e.message(), "quantity must be non-negative");

    let r = book.process_order(
        orders::new_limit_order_request(
            BrokerAsset::BTC,
            BrokerAsset::USD,
            OrderSide::Ask,
            dec(100, 0),
            dec(-1, 1),
            4,
        ),
        4,
    );
    assert_eq!(expect_validation_failure(r), ValidationError::BadQuantityValue);
}

#[test]
fn validator_rejects_nil_amend_id() {
    let mut book = Orderbook::new(BrokerAsset::BTC, BrokerAsset::USD);
    let r = book.process_order(
        orders::amend_order_request(
            orderbook::domain::OrderId::nil(),
            OrderSide::Bid,
            dec(100, 0),
            dec(1, 0),
            1,
        ),
        1,
    );
    let e = expect_validation_failure(r);
    assert_eq!(e, ValidationError::BadOrderId);
    assert_eq!(e.message(), "order ID invalid");
}
