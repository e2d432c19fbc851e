//! Connection handler: the per-connection state machine that translates
//! lifecycle events — open, inbound message, close — into registry calls
//! and a reply for the client.

use vstd::prelude::*;

use crate::registry::object_subscribed;
use crate::registry::object_unsubscribed;
use crate::registry::strs_views;
use crate::registry::vanilla_subscribed;
use crate::registry::vanilla_unsubscribed;
use crate::registry::disconnected;
use crate::registry::Subscriptions;
use crate::types::Client;
use crate::types::WsMessage;
use crate::types::WsOp;
use crate::types::WsPayload;

verus! {

/// The lifecycle of one connection: just opened, processing traffic, or
/// terminally closed.
#[derive(Clone, Copy, Debug, PartialEq, Eq, Structural)]
pub enum HandlerState {
    Connected,
    Active,
    Closed,
}

/// One connection's handler.
pub struct ConnectionHandler {
    pub client: Client,
    pub state: HandlerState,
}

impl ConnectionHandler {
    /// A handler for a connection that just opened.
    pub fn new(client: Client) -> (h: Self)
        ensures
            h.client == client,
            h.state == HandlerState::Connected,
    {
        ConnectionHandler { client, state: HandlerState::Connected }
    }

    /// Acknowledge the open: hand back the literal greeting to send to the
    /// client, and become active.
    pub fn on_open(&mut self) -> (ack: String)
        requires
            old(self).state == HandlerState::Connected,
        ensures
            final(self).state == HandlerState::Active,
            final(self).client == old(self).client,
            ack@ == "connected"@,
    {
        self.state = HandlerState::Active;
        "connected".to_owned()
    }

    /// Route one decoded inbound message to the registry, then reply with
    /// the client's current full subscription list. Recognized subscribe
    /// and unsubscribe operations mutate the registry; anything else — a
    /// missing operation or payload, or an object operation without a
    /// target — is silently ignored, so forward-incompatible clients get
    /// their unchanged list echoed back instead of an error.
    pub fn on_message(&mut self, subs: &mut Subscriptions, msg: &WsMessage) -> (reply: Vec<String>)
        requires
            old(self).state == HandlerState::Active,
            old(subs).wf(),
        ensures
            *final(self) == *old(self),
            final(subs).wf(),
            strs_views(reply@) == final(subs).subs_list_spec(old(self).client),
            ({
                let c = old(self).client;
                match (msg.op, msg.payload) {
                    (Some(WsOp::Subscribe), Some(k)) => if k.is_vanilla() {
                        vanilla_subscribed(*old(subs), *final(subs), k, c)
                    } else {
                        match msg.target {
                            Some(t) => object_subscribed(*old(subs), *final(subs), c, t@),
                            None => *final(subs) == *old(subs),
                        }
                    },
                    (Some(WsOp::Unsubscribe), Some(k)) => if k.is_vanilla() {
                        vanilla_unsubscribed(*old(subs), *final(subs), k, c)
                    } else {
                        match msg.target {
                            Some(t) => object_unsubscribed(*old(subs), *final(subs), c, t@),
                            None => *final(subs) == *old(subs),
                        }
                    },
                    _ => *final(subs) == *old(subs),
                }
            }),
    {
        match (msg.op, msg.payload) {
            (Some(WsOp::Subscribe), Some(WsPayload::Object)) => {
                if let Some(t) = &msg.target {
                    subs.object_subscribe(self.client, t.clone());
                }
            },
            (Some(WsOp::Subscribe), Some(k)) => {
                subs.vanilla_subscribe(&k, &self.client);
            },
            (Some(WsOp::Unsubscribe), Some(WsPayload::Object)) => {
                if let Some(t) = &msg.target {
                    subs.object_unsubscribe(self.client, t.clone());
                }
            },
            (Some(WsOp::Unsubscribe), Some(k)) => {
                subs.vanilla_unsubscribe(&k, &self.client);
            },
            _ => {},
        }
        subs.subs_for_client(self.client)
    }

    /// Close the connection, for any reason and from any state: tear down
    /// every registry entry of this client. Closed is terminal; calling
    /// this again on an already-closed handler leaves the registry as it
    /// is, since the client's entries are already gone.
    pub fn on_close(&mut self, subs: &mut Subscriptions)
        requires
            old(subs).wf(),
        ensures
            final(self).state == HandlerState::Closed,
            final(self).client == old(self).client,
            final(subs).wf(),
            disconnected(*old(subs), *final(subs), old(self).client),
            final(subs).subs_list_spec(old(self).client) == Seq::<Seq<char>>::empty(),
    {
        self.state = HandlerState::Closed;
        subs.client_unsubscribe(self.client);
    }
}

} // verus!
