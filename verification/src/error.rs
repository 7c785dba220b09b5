//! Error type of the pool.

use vstd::prelude::*;

use crate::text::{decimal, push_decimal, push_signed_decimal, signed_decimal};

verus! {

/// Error returned by the RPC pool.
#[derive(Debug)]
pub enum RpcError {
    /// The pool had no candidates for the requested method. Either no endpoint
    /// declared the capability, or every capable endpoint was in cooldown or
    /// throttled.
    NoCandidates { method: String, reason: String },
    /// Every candidate endpoint returned an error. The `attempts` list preserves
    /// the (endpoint_url, error_message) pairs so operators can see exactly what
    /// happened.
    AllFailed { method: String, count: usize, attempts: Vec<(String, String)> },
    /// Transport-layer failure (I/O, timeout, DNS).
    Transport { endpoint: String, message: String },
    /// The JSON-RPC server returned an error envelope (`error` field populated).
    JsonRpc { endpoint: String, code: i64, message: String },
    /// A message failed to parse or to serialize as JSON-RPC.
    Malformed { endpoint: String, message: String },
    /// Caller supplied an invalid configuration.
    Config(String),
}

impl RpcError {
    /// The error in words.
    pub open spec fn words(self) -> Seq<char> {
        match self {
            RpcError::NoCandidates { method, reason } => {
                "no healthy endpoints support method "@ + method@ + ": "@ + reason@
            },
            RpcError::AllFailed { method, count, .. } => {
                "all "@ + decimal(count as nat) + " RPC endpoints failed for "@ + method@
            },
            RpcError::Transport { endpoint, message } => {
                "transport error for "@ + endpoint@ + ": "@ + message@
            },
            RpcError::JsonRpc { endpoint, code, message } => {
                "rpc error from "@ + endpoint@ + ": "@ + signed_decimal(code as int) + " "@
                    + message@
            },
            RpcError::Malformed { endpoint, message } => {
                "malformed response from "@ + endpoint@ + ": "@ + message@
            },
            RpcError::Config(reason) => "invalid configuration: "@ + reason@,
        }
    }

    /// The error in words.
    pub fn to_string(&self) -> (r: String)
        ensures
            r@ == self.words(),
    {
        match self {
            RpcError::NoCandidates { method, reason } => {
                let mut out = "no healthy endpoints support method ".to_owned();
                out.append(method.as_str());
                out.append(": ");
                out.append(reason.as_str());
                out
            },
            RpcError::AllFailed { method, count, .. } => {
                let mut out = "all ".to_owned();
                push_decimal(&mut out, *count as u64);
                out.append(" RPC endpoints failed for ");
                out.append(method.as_str());
                out
            },
            RpcError::Transport { endpoint, message } => {
                let mut out = "transport error for ".to_owned();
                out.append(endpoint.as_str());
                out.append(": ");
                out.append(message.as_str());
                out
            },
            RpcError::JsonRpc { endpoint, code, message } => {
                let mut out = "rpc error from ".to_owned();
                out.append(endpoint.as_str());
                out.append(": ");
                push_signed_decimal(&mut out, *code);
                out.append(" ");
                out.append(message.as_str());
                out
            },
            RpcError::Malformed { endpoint, message } => {
                let mut out = "malformed response from ".to_owned();
                out.append(endpoint.as_str());
                out.append(": ");
                out.append(message.as_str());
                out
            },
            RpcError::Config(reason) => {
                let mut out = "invalid configuration: ".to_owned();
                out.append(reason.as_str());
                out
            },
        }
    }

    /// Convenience: treat an unknown error string as a transport failure for a
    /// specific endpoint.
    pub fn transport(endpoint: &str, message: &str) -> (r: Self)
        ensures
            r matches RpcError::Transport { endpoint: e, message: m } && e@ == endpoint@ && m@
                == message@,
    {
        RpcError::Transport { endpoint: endpoint.to_owned(), message: message.to_owned() }
    }

    /// The error of a dispatch that missed a deadline over the whole pool.
    /// `deadline` is the deadline in words.
    pub fn pool_timeout(deadline: &str) -> (r: Self)
        ensures
            r matches RpcError::Transport { endpoint, message } && endpoint@ == "<pool>"@
                && message@ == "pool-wide timeout after "@ + deadline@,
    {
        let mut message = "pool-wide timeout after ".to_owned();
        message.append(deadline);
        RpcError::transport("<pool>", message.as_str())
    }
}

/// An error is told in words that name all it knows: the method and the reason,
/// how many endpoints failed, or the endpoint, the code and the message.
pub proof fn law_errors_name_what_they_know(error: RpcError)
    ensures
        error matches RpcError::NoCandidates { method, reason } ==> error.words()
            == "no healthy endpoints support method "@ + method@ + ": "@ + reason@,
        error matches RpcError::AllFailed { method, count, .. } ==> error.words() == "all "@
            + decimal(count as nat) + " RPC endpoints failed for "@ + method@,
        error matches RpcError::Transport { endpoint, message } ==> error.words()
            == "transport error for "@ + endpoint@ + ": "@ + message@,
        error matches RpcError::JsonRpc { endpoint, code, message } ==> error.words()
            == "rpc error from "@ + endpoint@ + ": "@ + signed_decimal(code as int) + " "@
            + message@,
        error matches RpcError::Malformed { endpoint, message } ==> error.words()
            == "malformed response from "@ + endpoint@ + ": "@ + message@,
        error matches RpcError::Config(reason) ==> error.words() == "invalid configuration: "@
            + reason@,
{
}

/// A transport error tells the endpoint and the message it was made with, and a
/// missed deadline is told of the pool as a whole.
pub proof fn law_transport_errors_tell_endpoint_and_message(
    endpoint: &str,
    message: &str,
    failed: RpcError,
    late: RpcError,
)
    requires
        call_ensures(RpcError::transport, (endpoint, message), failed),
        call_ensures(RpcError::pool_timeout, (message,), late),
    ensures
        failed.words() == "transport error for "@ + endpoint@ + ": "@ + message@,
        late.words() == "transport error for "@ + "<pool>"@ + ": "@ + (
        "pool-wide timeout after "@ + message@),
{
}

} // verus!
