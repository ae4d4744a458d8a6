//! The messages reported when a solution or a transaction cannot be
//! broadcast.
use vstd::prelude::*;
use vstd::string::*;
use crate::text::{decimal, push_decimal};

verus! {

/// What is being broadcast.
#[derive(Debug, PartialEq, Eq, Clone, Copy, Structural)]
pub enum BroadcastKind {
    /// A puzzle solution.
    Solution,
    /// A transaction that deploys a program.
    Deploy,
    /// A transaction that executes a program.
    Execute,
    /// A fee transaction.
    Fee,
}

/// The start of the message for a broadcast that the node did not accept.
pub open spec fn failure_prefix(kind: BroadcastKind) -> Seq<char> {
    match kind {
        BroadcastKind::Solution => "❌ Failed to broadcast solution to "@,
        BroadcastKind::Deploy => "❌ Failed to deploy program to "@,
        BroadcastKind::Execute => "❌ Failed to broadcast execution to "@,
        BroadcastKind::Fee => "❌ Failed to broadcast fee execution to "@,
    }
}

/// The message for a broadcast to `url` that failed with `detail`.
pub fn broadcast_failure_message(kind: BroadcastKind, url: &str, detail: &str) -> (r: String)
    ensures
        r@ == failure_prefix(kind) + url@ + ": "@ + detail@,
{
    let mut message = match kind {
        BroadcastKind::Solution => String::from_str("❌ Failed to broadcast solution to "),
        BroadcastKind::Deploy => String::from_str("❌ Failed to deploy program to "),
        BroadcastKind::Execute => String::from_str("❌ Failed to broadcast execution to "),
        BroadcastKind::Fee => String::from_str("❌ Failed to broadcast fee execution to "),
    };
    message.append(url);
    message.append(": ");
    message.append(detail);
    message
}

/// The message for a broadcast whose response could not be read, with the
/// reading error `detail`.
pub fn malformed_response_message(kind: BroadcastKind, detail: &str) -> (r: String)
    ensures
        r@ == (match kind {
            BroadcastKind::Solution => "❌ Solution response was malformed "@,
            _ => "❌ Transaction response was malformed "@,
        }) + detail@,
{
    let mut message = match kind {
        BroadcastKind::Solution => String::from_str("❌ Solution response was malformed "),
        _ => String::from_str("❌ Transaction response was malformed "),
    };
    message.append(detail);
    message
}

/// The detail of a transaction the node answered with an error status:
/// `(status code {code}: {body})`.
pub fn status_detail(code: u16, body: &str) -> (r: String)
    ensures
        r@ == "(status code "@ + decimal(code as nat) + ": "@ + body@ + ")"@,
{
    let mut detail = String::from_str("(status code ");
    push_decimal(&mut detail, code as u32);
    detail.append(": ");
    detail.append(body);
    detail.append(")");
    detail
}

/// The detail of a transaction that could not reach the node:
/// `({error})`.
pub fn transport_detail(error: &str) -> (r: String)
    ensures
        r@ == "("@ + error@ + ")"@,
{
    let mut detail = String::from_str("(");
    detail.append(error);
    detail.append(")");
    detail
}

} // verus!
