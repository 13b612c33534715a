//! A payment-to-mint ledger: a payment intent is registered under a memo,
//! claimed exactly once by its payer, and turned into one uniquely numbered
//! ANIMA record whose experience and level then only ever grow.
//!
//! The ledger is `State`. What it guarantees is stated over its mathematical
//! model, `StateView`, and proved in `laws`.

pub mod asset;
pub mod designation;
pub mod error;
pub mod laws;
pub mod model;
pub mod payment;
pub mod principal;
pub mod state;

pub use asset::{AnimaData, EXPERIENCE_GAIN, LEVEL_THRESHOLD};
pub use error::Error;
pub use payment::{PaymentRecord, PaymentStatus, PAYMENT_AMOUNT};
pub use state::{InteractionResponse, MintResult, State};
