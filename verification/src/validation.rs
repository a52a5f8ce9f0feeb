//! The stateless predicate check every intent passes before it touches the
//! book.
use vstd::prelude::*;

use crate::asset::BrokerAsset;
use crate::orders::request_wf;
use crate::orders::OrderRequest;

verus! {

/// The reasons an intent can be rejected, in the order the rules are
/// checked; the first violated rule wins.
#[derive(Clone, Copy, Debug, PartialEq, Eq, Structural)]
pub enum ValidationError {
    BadOrderAsset,
    BadPriceAsset,
    BadPriceValue,
    BadQuantityValue,
    BadOrderId,
}

impl ValidationError {
    /// The reason string surfaced to callers. The price message keeps a
    /// legacy phrasing: the check itself is strict positivity.
    pub open spec fn message_spec(self) -> Seq<char> {
        match self {
            ValidationError::BadOrderAsset => "bad order asset"@,
            ValidationError::BadPriceAsset => "bad price asset"@,
            ValidationError::BadPriceValue => "price must be non-negative"@,
            ValidationError::BadQuantityValue => "quantity must be non-negative"@,
            ValidationError::BadOrderId => "order ID invalid"@,
        }
    }

    pub fn message(&self) -> (r: &'static str)
        ensures
            r@ == self.message_spec(),
    {
        match self {
            ValidationError::BadOrderAsset => "bad order asset",
            ValidationError::BadPriceAsset => "bad price asset",
            ValidationError::BadPriceValue => "price must be non-negative",
            ValidationError::BadQuantityValue => "quantity must be non-negative",
            ValidationError::BadOrderId => "order ID invalid",
        }
    }
}

/// Validates intents against the asset pair this engine instance was
/// constructed with; stateless with respect to book contents.
pub struct OrderRequestValidator {
    pub orderbook_order_asset: BrokerAsset,
    pub orderbook_price_asset: BrokerAsset,
}

impl OrderRequestValidator {
    pub fn new(orderbook_order_asset: BrokerAsset, orderbook_price_asset: BrokerAsset) -> (r:
        OrderRequestValidator)
        ensures
            r.orderbook_order_asset == orderbook_order_asset,
            r.orderbook_price_asset == orderbook_price_asset,
    {
        OrderRequestValidator { orderbook_order_asset, orderbook_price_asset }
    }

    /// The first rule the intent violates, if any. New orders must carry
    /// the engine's asset pair; prices and quantities must be strictly
    /// positive; amend and cancel must not carry the nil id.
    pub open spec fn validate_spec(self, request: OrderRequest) -> Option<ValidationError> {
        match request {
            OrderRequest::NewMarketOrder { order_asset, price_asset, qty, .. } => {
                if order_asset != self.orderbook_order_asset {
                    Some(ValidationError::BadOrderAsset)
                } else if price_asset != self.orderbook_price_asset {
                    Some(ValidationError::BadPriceAsset)
                } else if qty.units() <= 0 {
                    Some(ValidationError::BadQuantityValue)
                } else {
                    None
                }
            },
            OrderRequest::NewLimitOrder { order_asset, price_asset, price, qty, .. } => {
                if order_asset != self.orderbook_order_asset {
                    Some(ValidationError::BadOrderAsset)
                } else if price_asset != self.orderbook_price_asset {
                    Some(ValidationError::BadPriceAsset)
                } else if price.units() <= 0 {
                    Some(ValidationError::BadPriceValue)
                } else if qty.units() <= 0 {
                    Some(ValidationError::BadQuantityValue)
                } else {
                    None
                }
            },
            OrderRequest::AmendOrder { id, price, qty, .. } => {
                if id.is_nil() {
                    Some(ValidationError::BadOrderId)
                } else if price.units() <= 0 {
                    Some(ValidationError::BadPriceValue)
                } else if qty.units() <= 0 {
                    Some(ValidationError::BadQuantityValue)
                } else {
                    None
                }
            },
            OrderRequest::CancelOrder { id, .. } => {
                if id.is_nil() {
                    Some(ValidationError::BadOrderId)
                } else {
                    None
                }
            },
        }
    }

    /// Check an intent; `Err` carries exactly the first violated rule.
    pub fn validate(&self, request: &OrderRequest) -> (r: Result<(), ValidationError>)
        requires
            request_wf(*request),
        ensures
            r == (match self.validate_spec(*request) {
                Some(e) => Err::<(), ValidationError>(e),
                None => Ok::<(), ValidationError>(()),
            }),
    {
        match request {
            OrderRequest::NewMarketOrder { order_asset, price_asset, qty, .. } => {
                if *order_asset != self.orderbook_order_asset {
                    Err(ValidationError::BadOrderAsset)
                } else if *price_asset != self.orderbook_price_asset {
                    Err(ValidationError::BadPriceAsset)
                } else if !qty.is_positive() {
                    Err(ValidationError::BadQuantityValue)
                } else {
                    Ok(())
                }
            },
            OrderRequest::NewLimitOrder { order_asset, price_asset, price, qty, .. } => {
                if *order_asset != self.orderbook_order_asset {
                    Err(ValidationError::BadOrderAsset)
                } else if *price_asset != self.orderbook_price_asset {
                    Err(ValidationError::BadPriceAsset)
                } else if !price.is_positive() {
                    Err(ValidationError::BadPriceValue)
                } else if !qty.is_positive() {
                    Err(ValidationError::BadQuantityValue)
                } else {
                    Ok(())
                }
            },
            OrderRequest::AmendOrder { id, price, qty, .. } => {
                if id.0 == 0 {
                    Err(ValidationError::BadOrderId)
                } else if !price.is_positive() {
                    Err(ValidationError::BadPriceValue)
                } else if !qty.is_positive() {
                    Err(ValidationError::BadQuantityValue)
                } else {
                    Ok(())
                }
            },
            OrderRequest::CancelOrder { id, .. } => {
                if id.0 == 0 {
                    Err(ValidationError::BadOrderId)
                } else {
                    Ok(())
                }
            },
        }
    }
}

} // verus!
