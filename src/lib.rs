//! An escrow registry of offers: a holder deposits one token instance and names a
//! spender, who receives it by paying the agreed amount of the native asset.
//!
//! The host ledger (who called, what was attached, moving assets) stays outside:
//! the caller and the attached payment come in as plain values, and each
//! operation hands back the transfers the host must carry out.
pub mod types;
pub mod middleman;
pub mod laws;

pub use types::{
    Address, MiddlemanError, Notice, Offer, Receipt, Status, Transfer, holder_payout,
    is_native_token,
};
pub use middleman::Middleman;
