//! Where the provider is reached.

use vstd::prelude::*;
use vstd::string::StringExecFns;

verus! {

/// The address of the provider's live service.
pub open spec fn mainnet_url() -> Seq<char> {
    "https://api.bybit.com"@
}

/// The address of the provider's test service.
pub open spec fn testnet_url() -> Seq<char> {
    "https://api-testnet.bybit.com"@
}

/// The path of the bar endpoint under either address.
pub open spec fn kline_path() -> Seq<char> {
    "/v5/market/kline"@
}

/// The provider's service, live or test.
#[derive(Debug, Clone, PartialEq, Eq)]
pub struct BybitClient {
    pub base_url: String,
}

impl BybitClient {
    /// The live service, or the test service where `testnet` is set.
    pub fn new(testnet: bool) -> (client: BybitClient)
        ensures
            client.base_url@ == if testnet {
                testnet_url()
            } else {
                mainnet_url()
            },
    {
        let base_url: String = if testnet {
            "https://api-testnet.bybit.com".to_owned()
        } else {
            "https://api.bybit.com".to_owned()
        };
        BybitClient { base_url }
    }

    /// The address that pages of bars are asked from.
    pub fn kline_url(&self) -> (url: String)
        ensures
            url@ == self.base_url@ + kline_path(),
    {
        self.base_url.clone().concat("/v5/market/kline")
    }
}

} // verus!
