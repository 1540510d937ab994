//! Verification and governance framing of cross-chain messages, with
//! single-use claim records keyed by message identity.

pub mod be;
pub mod error;
pub mod codec;
pub mod governance;
pub mod message;
pub mod claim;
pub mod guardian_set;
