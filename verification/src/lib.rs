//! Cross-chain identity linking core.
//!
//! An inbound transport message carries an assertion that a wallet on a
//! source chain and a wallet on this chain belong to the same holder. This
//! crate decodes such payloads, validates the two address formats, and keeps
//! a capacity-bounded, duplicate-free ledger of linked addresses per owner,
//! applying each transport message at most once.

pub mod codec;
pub mod ledger;
pub mod manager;
pub mod receiver;
pub mod text;
pub mod validator;
