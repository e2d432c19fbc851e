//! Subscription registry and broadcast dispatch for a blockchain event feed.
//!
//! Clients declare interest either in one of four fixed broadcast categories
//! or in specific on-chain object identifiers embedded in event payloads.
//! The registry keeps a bidirectional client/object index, the scanner finds
//! object identifiers inside serialized payload text, and the dispatcher
//! builds one delivery task per matched client.

pub mod dispatch;
pub mod handler;
pub mod registry;
pub mod scanner;
pub mod types;

pub use types::Candidate;
pub use types::Client;
pub use types::WsMessage;
pub use types::WsOp;
pub use types::WsPayload;
