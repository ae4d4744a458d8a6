//! The REST path prefix of each supported Aleo network.
use vstd::prelude::*;
use vstd::string::*;
use crate::text::text_eq;

verus! {

/// The path prefix of the network named `name`, if it is supported.
pub open spec fn network_prefix_of(name: Seq<char>) -> Option<Seq<char>> {
    if name == "Aleo Mainnet (v0)"@ {
        Some("mainnet"@)
    } else if name == "Aleo Testnet (v0)"@ {
        Some("testnet"@)
    } else if name == "Aleo Canary (v0)"@ {
        Some("canary"@)
    } else {
        None
    }
}

/// The network is not one the REST API serves.
#[derive(Debug, PartialEq, Eq)]
pub enum NetworkError {
    UnsupportedNetwork,
}

/// Get the network REST prefix for the network named `name`:
/// `mainnet`, `testnet` or `canary`.
pub fn network_prefix(name: &str) -> (r: Result<String, NetworkError>)
    ensures
        network_prefix_of(name@) is Some <==> r is Ok,
        r is Ok ==> r.unwrap()@ == network_prefix_of(name@).unwrap(),
        r is Err ==> r == Err::<String, NetworkError>(NetworkError::UnsupportedNetwork),
{
    if text_eq(name, "Aleo Mainnet (v0)") {
        Ok(String::from_str("mainnet"))
    } else if text_eq(name, "Aleo Testnet (v0)") {
        Ok(String::from_str("testnet"))
    } else if text_eq(name, "Aleo Canary (v0)") {
        Ok(String::from_str("canary"))
    } else {
        Err(NetworkError::UnsupportedNetwork)
    }
}

} // verus!
