use vstd::prelude::*;

use crate::domain::AssetTag;

verus! {

/// The instruments of a small brokerage pair book.
#[derive(PartialEq, Eq, Structural, Clone, Copy, Debug)]
pub enum BrokerAsset {
    USD,
    EUR,
    BTC,
    ETH,
}

impl AssetTag for BrokerAsset {
    fn same(&self, other: &Self) -> (r: bool) {
        *self == *other
    }
}

/// The instrument a ticker names.
pub open spec fn asset_named(s: Seq<char>) -> Option<BrokerAsset> {
    if s == "USD"@ {
        Some(BrokerAsset::USD)
    } else if s == "EUR"@ {
        Some(BrokerAsset::EUR)
    } else if s == "BTC"@ {
        Some(BrokerAsset::BTC)
    } else if s == "ETH"@ {
        Some(BrokerAsset::ETH)
    } else {
        None
    }
}

/// Reads a ticker; `None` for one that is not listed.
pub fn parse_asset(asset: &str) -> (r: Option<BrokerAsset>)
    ensures
        r == asset_named(asset@),
{
    let a = asset.to_owned();
    if a == "USD".to_owned() {
        Some(BrokerAsset::USD)
    } else if a == "EUR".to_owned() {
        Some(BrokerAsset::EUR)
    } else if a == "BTC".to_owned() {
        Some(BrokerAsset::BTC)
    } else if a == "ETH".to_owned() {
        Some(BrokerAsset::ETH)
    } else {
        None
    }
}

} // verus!
