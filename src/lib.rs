//! Client-side driver of one chain of a BFT-replicated ledger: session state,
//! quorum tallying, certificate assembly and the certificate wire format.

pub mod base;
pub mod committee;
pub mod block;
pub mod error;
pub mod quorum;
pub mod certificate;
pub mod manager;
pub mod client;
pub mod fuel;
pub mod codec;
pub mod updater;
