//! Core domain types: order identifiers, sides, types and the resting order
//! record.
use vstd::prelude::*;

use crate::asset::BrokerAsset;
use crate::decimal::Decimal;

verus! {

/// An order identifier: the 128-bit value of a UUID. The all-zero value is
/// the nil identifier, which amend and cancel requests must not carry.
#[derive(Clone, Copy, Debug, PartialEq, Eq, Structural, Hash)]
pub struct OrderId(pub u128);

impl OrderId {
    pub open spec fn is_nil(self) -> bool {
        self.0 == 0
    }

    pub fn nil() -> (r: OrderId)
        ensures
            r.is_nil(),
    {
        OrderId(0)
    }
}

#[derive(Clone, Copy, Debug, PartialEq, Eq, Structural)]
pub enum OrderSide {
    Bid,
    Ask,
}

/// What `str::to_lowercase` returns for a given character sequence.
pub uninterp spec fn lower_of(s: Seq<char>) -> Seq<char>;

/// Relies on `str::to_lowercase`: the result depends on the input characters
/// alone.
#[verifier::external_body]
pub(crate) fn lowercase(s: &str) -> (r: String)
    ensures
        r@ == lower_of(s@),
{
    s.to_lowercase()
}

/// Relies on `str`'s `PartialEq`, which holds exactly when the two character
/// sequences are equal.
#[verifier::external_body]
pub(crate) fn str_eq(a: &str, b: &str) -> (r: bool)
    ensures
        r <==> a@ == b@,
{
    a == b
}

impl OrderSide {
    /// Parse a side from its name, ignoring case.
    pub fn from_string(side: &str) -> (r: Option<OrderSide>)
        ensures
            r == (if lower_of(side@) == "bid"@ {
                Some(OrderSide::Bid)
            } else if lower_of(side@) == "ask"@ {
                Some(OrderSide::Ask)
            } else {
                None::<OrderSide>
            }),
    {
        let lower = lowercase(side);
        if str_eq(lower.as_str(), "bid") {
            Some(OrderSide::Bid)
        } else if str_eq(lower.as_str(), "ask") {
            Some(OrderSide::Ask)
        } else {
            None
        }
    }

    pub fn to_string(&self) -> (r: String)
        ensures
            r@ == (match *self {
                OrderSide::Bid => "bid"@,
                OrderSide::Ask => "ask"@,
            }),
    {
        match self {
            OrderSide::Bid => "bid".to_string(),
            OrderSide::Ask => "ask".to_string(),
        }
    }

    /// The other side of the book.
    pub open spec fn opposite(self) -> OrderSide {
        match self {
            OrderSide::Bid => OrderSide::Ask,
            OrderSide::Ask => OrderSide::Bid,
        }
    }
}

#[derive(Clone, Copy, Debug, PartialEq, Eq, Structural)]
pub enum OrderType {
    Market,
    Limit,
}

impl OrderType {
    pub fn to_string(&self) -> (r: String)
        ensures
            r@ == (match *self {
                OrderType::Market => "market"@,
                OrderType::Limit => "limit"@,
            }),
    {
        match self {
            OrderType::Market => "market".to_string(),
            OrderType::Limit => "limit".to_string(),
        }
    }
}

/// A resting limit order. An order lives in exactly one queue from the
/// moment it rests until it is fully filled or cancelled.
#[derive(Clone, Copy, Debug, PartialEq, Eq, Structural)]
pub struct Order {
    pub order_id: OrderId,
    pub order_asset: BrokerAsset,
    pub price_asset: BrokerAsset,
    pub side: OrderSide,
    pub price: Decimal,
    pub qty: Decimal,
}

impl Order {
    /// The bounds and positivity every order inside a queue satisfies.
    pub open spec fn wf(self) -> bool {
        &&& self.price.wf()
        &&& self.qty.wf()
        &&& self.price.units() > 0
        &&& self.qty.units() > 0
    }
}

} // verus!
