//! Payment intents.
//!
//! A record is created pending when a payer registers a memo, and is
//! completed once, by the mint that it pays for. Records are never removed.

use candid::Principal;
use vstd::prelude::*;

verus! {

/// What every payment is recorded to be worth, in e8s: one ICP.
pub const PAYMENT_AMOUNT: u64 = 100_000_000;

/// Whether a payment is still to be claimed.
#[derive(Clone, Copy, Debug, PartialEq, Eq, Structural)]
pub enum PaymentStatus {
    /// Registered and not yet claimed.
    Pending,
    /// Claimed: an ANIMA was minted for it.
    Completed,
}

/// A registered intent to pay.
#[derive(Clone, Copy, Debug, PartialEq, Eq)]
pub struct PaymentRecord {
    /// Who registered the intent.
    pub principal: Principal,
    /// The memo the intent is filed under.
    pub memo: u64,
    /// When the intent was registered.
    pub timestamp: u64,
    /// The fixed price.
    pub amount: u64,
    /// Whether the intent has been claimed.
    pub status: PaymentStatus,
}

impl PaymentRecord {
    /// The record that registering `memo` for `payer` at time `now` files.
    pub open spec fn pending(payer: Principal, memo: u64, now: u64) -> PaymentRecord {
        PaymentRecord {
            principal: payer,
            memo,
            timestamp: now,
            amount: PAYMENT_AMOUNT,
            status: PaymentStatus::Pending,
        }
    }

    /// This record once it has been claimed.
    pub open spec fn completed(self) -> PaymentRecord {
        PaymentRecord { status: PaymentStatus::Completed, ..self }
    }
}

} // verus!
