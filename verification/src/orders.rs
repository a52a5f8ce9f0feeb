//! Trading intents and their constructors.
use vstd::prelude::*;

use crate::asset::BrokerAsset;
use crate::decimal::Decimal;
use crate::domain::OrderId;
use crate::domain::OrderSide;

verus! {

/// A trading intent submitted to the engine.
#[derive(Clone, Copy, Debug)]
pub enum OrderRequest {
    NewMarketOrder {
        order_id: OrderId,
        order_asset: BrokerAsset,
        price_asset: BrokerAsset,
        side: OrderSide,
        qty: Decimal,
        ts: u64,
    },
    NewLimitOrder {
        order_id: OrderId,
        order_asset: BrokerAsset,
        price_asset: BrokerAsset,
        side: OrderSide,
        price: Decimal,
        qty: Decimal,
        ts: u64,
    },
    AmendOrder { id: OrderId, side: OrderSide, price: Decimal, qty: Decimal, ts: u64 },
    CancelOrder { id: OrderId, side: OrderSide },
}

/// The machine bounds every decimal carried by an intent must satisfy.
pub open spec fn request_wf(r: OrderRequest) -> bool {
    match r {
        OrderRequest::NewMarketOrder { qty, .. } => qty.wf(),
        OrderRequest::NewLimitOrder { price, qty, .. } => price.wf() && qty.wf(),
        OrderRequest::AmendOrder { price, qty, .. } => price.wf() && qty.wf(),
        OrderRequest::CancelOrder { .. } => true,
    }
}

/// Relies on `uuid::Uuid::new_v4`: a freshly generated random identifier.
/// Nothing is assumed of the value.
#[verifier::external_body]
fn fresh_order_id() -> OrderId {
    OrderId(uuid::Uuid::new_v4().as_u128())
}

/// Create a request for a new market order, with a freshly generated id.
pub fn new_market_order_request(
    order_asset: BrokerAsset,
    price_asset: BrokerAsset,
    side: OrderSide,
    qty: Decimal,
    ts: u64,
) -> (r: OrderRequest)
    ensures
        r matches OrderRequest::NewMarketOrder {
            order_asset: oa,
            price_asset: pa,
            side: s,
            qty: q,
            ts: t,
            ..
        } && oa == order_asset && pa == price_asset && s == side && q == qty && t == ts,
{
    let order_id = fresh_order_id();
    OrderRequest::NewMarketOrder { order_id, order_asset, price_asset, side, qty, ts }
}

/// Create a request for a new limit order, with a freshly generated id.
pub fn new_limit_order_request(
    order_asset: BrokerAsset,
    price_asset: BrokerAsset,
    side: OrderSide,
    price: Decimal,
    qty: Decimal,
    ts: u64,
) -> (r: OrderRequest)
    ensures
        r matches OrderRequest::NewLimitOrder {
            order_asset: oa,
            price_asset: pa,
            side: s,
            price: p,
            qty: q,
            ts: t,
            ..
        } && oa == order_asset && pa == price_asset && s == side && p == price && q == qty && t
            == ts,
{
    let order_id = fresh_order_id();
    OrderRequest::NewLimitOrder { order_id, order_asset, price_asset, side, price, qty, ts }
}

/// Create a request for changing the price or quantity of a live limit
/// order. The side cannot be changed: cancel and resubmit instead.
pub fn amend_order_request(
    id: OrderId,
    side: OrderSide,
    price: Decimal,
    qty: Decimal,
    ts: u64,
) -> (r: OrderRequest)
    ensures
        r == (OrderRequest::AmendOrder { id, side, price, qty, ts }),
{
    OrderRequest::AmendOrder { id, side, price, qty, ts }
}

/// Create a request for cancelling a live limit order.
pub fn limit_order_cancel_request(order_id: OrderId, side: OrderSide) -> (r: OrderRequest)
    ensures
        r == (OrderRequest::CancelOrder { id: order_id, side }),
{
    OrderRequest::CancelOrder { id: order_id, side }
}

} // verus!
