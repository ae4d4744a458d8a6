//! The REST routes that the client requests, and the URLs built from them.
use vstd::prelude::*;
use vstd::string::*;
use crate::text::{decimal, push_decimal, strip_quotes, without_quotes};

verus! {

/// A REST API route of an Aleo node. Identifiers are given in their text
/// form.
#[derive(Debug, PartialEq, Eq)]
pub enum Route {
    /// `latest/height`
    LatestHeight,
    /// `latest/hash`
    LatestHash,
    /// `latest/block`
    LatestBlock,
    /// `block/{height}`
    Block(u32),
    /// `blocks?start={start}&end={end}`
    Blocks(u32, u32),
    /// `transaction/{transaction_id}`
    Transaction(String),
    /// `memoryPool/transactions`
    MemoryPoolTransactions,
    /// `program/{program_id}`
    Program(String),
    /// `program/{program_id}/mappings`
    ProgramMappings(String),
    /// `program/{program_id}/mapping/{mapping_name}/{key}`
    MappingValue(String, String, String),
    /// `find/blockHash/{transaction_id}`
    FindBlockHash(String),
    /// `find/transitionID/{input_or_output_id}`
    FindTransitionId(String),
    /// `solution/broadcast`
    SolutionBroadcast,
    /// `deploy`
    Deploy,
}

/// The path of a route, after the network prefix.
pub open spec fn route_path(route: Route) -> Seq<char> {
    match route {
        Route::LatestHeight => "latest/height"@,
        Route::LatestHash => "latest/hash"@,
        Route::LatestBlock => "latest/block"@,
        Route::Block(height) => "block/"@ + decimal(height as nat),
        Route::Blocks(start, end) => "blocks?start="@ + decimal(start as nat) + "&end="@ + decimal(
            end as nat,
        ),
        Route::Transaction(id) => "transaction/"@ + id@,
        Route::MemoryPoolTransactions => "memoryPool/transactions"@,
        Route::Program(id) => "program/"@ + id@,
        Route::ProgramMappings(id) => "program/"@ + id@ + "/mappings"@,
        Route::MappingValue(id, name, key) => "program/"@ + id@ + "/mapping/"@ + name@ + "/"@
            + key@,
        Route::FindBlockHash(id) => "find/blockHash/"@ + id@,
        Route::FindTransitionId(id) => "find/transitionID/"@ + id@,
        Route::SolutionBroadcast => "solution/broadcast"@,
        Route::Deploy => "deploy"@,
    }
}

/// The URL of `route` on the node at `endpoint` for the network with prefix
/// `network_id`: `{endpoint}/{network_id}/{path}`. A transaction URL has
/// every `"` removed.
pub open spec fn route_url(endpoint: Seq<char>, network_id: Seq<char>, route: Route) -> Seq<char> {
    let url = endpoint + "/"@ + network_id + "/"@ + route_path(route);
    match route {
        Route::Transaction(_) => without_quotes(url),
        _ => url,
    }
}

/// Appends the path of `route` to `url`.
fn push_route_path(url: &mut String, route: &Route)
    ensures
        final(url)@ == old(url)@ + route_path(*route),
{
    match route {
        Route::LatestHeight => url.append("latest/height"),
        Route::LatestHash => url.append("latest/hash"),
        Route::LatestBlock => url.append("latest/block"),
        Route::Block(height) => {
            url.append("block/");
            push_decimal(url, *height);
        },
        Route::Blocks(start, end) => {
            url.append("blocks?start=");
            push_decimal(url, *start);
            url.append("&end=");
            push_decimal(url, *end);
        },
        Route::Transaction(id) => {
            url.append("transaction/");
            url.append(id.as_str());
        },
        Route::MemoryPoolTransactions => url.append("memoryPool/transactions"),
        Route::Program(id) => {
            url.append("program/");
            url.append(id.as_str());
        },
        Route::ProgramMappings(id) => {
            url.append("program/");
            url.append(id.as_str());
            url.append("/mappings");
        },
        Route::MappingValue(id, name, key) => {
            url.append("program/");
            url.append(id.as_str());
            url.append("/mapping/");
            url.append(name.as_str());
            url.append("/");
            url.append(key.as_str());
        },
        Route::FindBlockHash(id) => {
            url.append("find/blockHash/");
            url.append(id.as_str());
        },
        Route::FindTransitionId(id) => {
            url.append("find/transitionID/");
            url.append(id.as_str());
        },
        Route::SolutionBroadcast => url.append("solution/broadcast"),
        Route::Deploy => url.append("deploy"),
    }
    assert(final(url)@ =~= old(url)@ + route_path(*route));
}

/// The URL of `route` on the node at `endpoint` for the network with prefix
/// `network_id`.
pub fn rest_url(endpoint: &str, network_id: &str, route: &Route) -> (r: String)
    ensures
        r@ == route_url(endpoint@, network_id@, *route),
{
    let mut url = String::from_str(endpoint);
    url.append("/");
    url.append(network_id);
    url.append("/");
    push_route_path(&mut url, route);
    match route {
        Route::Transaction(_) => strip_quotes(url.as_str()),
        _ => url,
    }
}

} // verus!
