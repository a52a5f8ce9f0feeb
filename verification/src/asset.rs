//! The asset tokens an engine instance can be configured with.
//!
//! The engine treats an asset as an opaque, equality-comparable token; this
//! enum is the set of tokens offered to callers.
use vstd::prelude::*;

verus! {

#[derive(Clone, Copy, Debug, PartialEq, Eq, Structural)]
pub enum BrokerAsset {
    USD,
    EUR,
    BTC,
    ETH,
}

/// Parse an asset token from its upper-case symbol.
pub fn parse_asset(asset: &str) -> (r: Option<BrokerAsset>)
    ensures
        r == (if asset@ == "USD"@ {
            Some(BrokerAsset::USD)
        } else if asset@ == "EUR"@ {
            Some(BrokerAsset::EUR)
        } else if asset@ == "BTC"@ {
            Some(BrokerAsset::BTC)
        } else if asset@ == "ETH"@ {
            Some(BrokerAsset::ETH)
        } else {
            None::<BrokerAsset>
        }),
{
    if crate::domain::str_eq(asset, "USD") {
        Some(BrokerAsset::USD)
    } else if crate::domain::str_eq(asset, "EUR") {
        Some(BrokerAsset::EUR)
    } else if crate::domain::str_eq(asset, "BTC") {
        Some(BrokerAsset::BTC)
    } else if crate::domain::str_eq(asset, "ETH") {
        Some(BrokerAsset::ETH)
    } else {
        None
    }
}

} // verus!
