//! Core value types: clients, broadcast categories, inbound messages and
//! broadcast candidates.

use vstd::prelude::*;

verus! {

/// A live client connection, identified by the unique token of its
/// underlying connection. Equality and hashing go by the token alone;
/// the sending capability itself lives outside the registry.
#[derive(Clone, Copy, Debug, PartialEq, Eq, Structural, Hash)]
pub struct Client {
    pub token: u64,
}

/// The closed set of subscription payloads: four "vanilla" broadcast
/// categories, each with its own subscriber set, plus the object category,
/// which is parameterized by an object identifier instead.
#[derive(Clone, Copy, Debug, PartialEq, Eq, Structural, Hash)]
pub enum WsPayload {
    KeyBlocks,
    MicroBlocks,
    Transactions,
    TxUpdate,
    Object,
}

impl WsPayload {
    /// True for the four fixed categories; false for the object category.
    pub open spec fn is_vanilla(self) -> bool {
        self != WsPayload::Object
    }

    /// The wire name of this payload, as it appears in subscription lists
    /// and broadcast envelopes.
    pub open spec fn name_spec(self) -> Seq<char> {
        match self {
            WsPayload::KeyBlocks => "KeyBlocks"@,
            WsPayload::MicroBlocks => "MicroBlocks"@,
            WsPayload::Transactions => "Transactions"@,
            WsPayload::TxUpdate => "TxUpdate"@,
            WsPayload::Object => "Object"@,
        }
    }

    /// The wire name of this payload as an owned string.
    pub fn name(&self) -> (r: String)
        ensures
            r@ == self.name_spec(),
    {
        match self {
            WsPayload::KeyBlocks => "KeyBlocks".to_owned(),
            WsPayload::MicroBlocks => "MicroBlocks".to_owned(),
            WsPayload::Transactions => "Transactions".to_owned(),
            WsPayload::TxUpdate => "TxUpdate".to_owned(),
            WsPayload::Object => "Object".to_owned(),
        }
    }
}

/// The operation requested by an inbound message.
#[derive(Clone, Copy, Debug, PartialEq, Eq, Structural, Hash)]
pub enum WsOp {
    Subscribe,
    Unsubscribe,
}

/// A decoded inbound message: an optional operation, an optional payload
/// category, and, for object subscriptions, the target object identifier.
#[derive(Clone, Debug)]
pub struct WsMessage {
    pub op: Option<WsOp>,
    pub payload: Option<WsPayload>,
    pub target: Option<String>,
}

/// An event pending broadcast: its category tag plus the serialized event
/// body. For vanilla categories the tag alone determines the recipients;
/// for the object category the recipients are derived from object
/// identifiers found inside the body text.
#[derive(Clone, Debug)]
pub struct Candidate {
    pub payload: WsPayload,
    pub data: String,
}

} // verus!
