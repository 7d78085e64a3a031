//! A verified core for pairing two anonymous participants through a shareable
//! link: the link codec, the local connection cache with its persistence
//! format, the status lifecycle, the pairing-service message formats, and the
//! reconciliation state machine that ties them together.
//!
//! Network transfer and browser storage happen outside this crate; every
//! decision about what to send, what to store, and how to interpret what came
//! back is made here, under contract.

pub mod cache;
pub mod client;
pub mod codec;
pub mod identity;
pub mod lifecycle;
pub mod link;
pub mod model;
pub mod orchestrator;
pub mod text;
pub mod wire;
