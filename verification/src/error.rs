//! The ways a request can be turned down.

use vstd::prelude::*;
use vstd::string::*;

verus! {

/// Why a request was turned down. Every variant is a verdict on the request
/// against the current state; a request that is turned down changes nothing.
#[derive(Clone, Copy, Debug, PartialEq, Eq, Structural)]
pub enum Error {
    /// No payment was ever registered under the memo.
    PaymentNotFound,
    /// The payment under the memo was registered by somebody else.
    PayerMismatch,
    /// The payment under the memo has already paid for an ANIMA.
    PaymentAlreadyConsumed,
    /// No ANIMA carries the identifier.
    AssetNotFound,
}

impl Error {
    /// The sentence that `message` returns.
    pub open spec fn message_text(self) -> Seq<char> {
        match self {
            Error::PaymentNotFound => "No payment record found"@,
            Error::PayerMismatch => "Payment memo doesn't match caller"@,
            Error::PaymentAlreadyConsumed => "Payment already processed"@,
            Error::AssetNotFound => "ANIMA not found"@,
        }
    }

    /// The error as a sentence for the caller.
    pub fn message(&self) -> (text: String)
        ensures
            text@ == self.message_text(),
    {
        match self {
            Error::PaymentNotFound => String::from_str("No payment record found"),
            Error::PayerMismatch => String::from_str("Payment memo doesn't match caller"),
            Error::PaymentAlreadyConsumed => String::from_str("Payment already processed"),
            Error::AssetNotFound => String::from_str("ANIMA not found"),
        }
    }
}

} // verus!
