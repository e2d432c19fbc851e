use ws_broker::dispatch::broadcast_tasks;
use ws_broker::dispatch::make_envelope;
use ws_broker::handler::ConnectionHandler;
use ws_broker::handler::HandlerState;
use ws_broker::registry::Subscriptions;
use ws_broker::types::Candidate;
use ws_broker::types::Client;
use ws_broker::types::WsMessage;
use ws_broker::types::WsOp;
use ws_broker::types::WsPayload;

#[test]
fn envelope_has_the_fixed_frame() {
    let candidate = Candidate { payload: WsPayload::MicroBlocks, data: "{\"height\":7}".to_string() };
    assert_eq!(
        make_envelope(&candidate),
        "{\"subscription\":\"MicroBlocks\",\"payload\":{\"height\":7}}"
    );
}

#[test]
fn fan_out_builds_one_task_per_recipient() {
    let clients = [Client { token: 1 }, Client { token: 2 }, Client { token: 3 }];
    let mut subs = Subscriptions::new();
    for c in clients.iter() {
        subs.vanilla_subscribe(&WsPayload::Transactions, c);
    }
    let candidate = Candidate { payload: WsPayload::Transactions, data: "{\"nonce\":1}".to_string() };
    let tasks = broadcast_tasks(&subs, &candidate);
    assert_eq!(tasks.len(), 3);
    let expected = make_envelope(&candidate);
    for (i, (client, envelope)) in tasks.iter().enumerate() {
        assert_eq!(*client, clients[i]);
        assert_eq!(*envelope, expected);
    }
}

#[test]
fn handler_lifecycle_and_end_to_end_routing() {
    let mut subs = Subscriptions::new();
    let a = Client { token: 100 };
    let b = Client { token: 200 };
    let id = "ak_2eid5UDLCVxNvqL95p9UtHmHQKbiFQahRfoo839DeQuBo8A3Qc";

    let mut ha = ConnectionHandler::new(a);
    assert!(matches!(ha.state, HandlerState::Connected));
    assert_eq!(ha.on_open(), "connected");
    assert!(matches!(ha.state, HandlerState::Active));
    let reply = ha.on_message(
        &mut subs,
        &WsMessage {
            op: Some(WsOp::Subscribe),
            payload: Some(WsPayload::MicroBlocks),
            target: None,
        },
    );
    assert_eq!(reply, vec!["MicroBlocks".to_string()]);

    let mut hb = ConnectionHandler::new(b);
    hb.on_open();
    let reply = hb.on_message(
        &mut subs,
        &WsMessage {
            op: Some(WsOp::Subscribe),
            payload: Some(WsPayload::Object),
            target: Some(id.to_string()),
        },
    );
    assert_eq!(reply, vec![id.to_string()]);

    // a micro-block event reaches only A
    let mb = Candidate { payload: WsPayload::MicroBlocks, data: "{\"height\":1}".to_string() };
    let tasks = broadcast_tasks(&subs, &mb);
    assert_eq!(tasks.len(), 1);
    assert_eq!(tasks[0].0, a);

    // an object event whose payload holds B's identifier reaches only B
    let obj = Candidate {
        payload: WsPayload::Object,
        data: format!("{{\"sender_id\": \"{}\"}}", id),
    };
    let tasks = broadcast_tasks(&subs, &obj);
    assert_eq!(tasks.len(), 1);
    assert_eq!(tasks[0].0, b);

    // closing B tears its subscription down
    hb.on_close(&mut subs);
    assert!(matches!(hb.state, HandlerState::Closed));
    assert_eq!(broadcast_tasks(&subs, &obj).len(), 0);
    assert_eq!(broadcast_tasks(&subs, &mb).len(), 1);
}

#[test]
fn unrecognized_messages_are_ignored_and_list_is_echoed() {
    let mut subs = Subscriptions::new();
    let c = Client { token: 9 };
    let mut h = ConnectionHandler::new(c);
    h.on_open();
    let reply = h.on_message(
        &mut subs,
        &WsMessage { op: Some(WsOp::Subscribe), payload: Some(WsPayload::KeyBlocks), target: None },
    );
    assert_eq!(reply, vec!["KeyBlocks".to_string()]);
    // no operation at all: nothing changes, the list is echoed back
    let reply = h.on_message(&mut subs, &WsMessage { op: None, payload: None, target: None });
    assert_eq!(reply, vec!["KeyBlocks".to_string()]);
    // an object subscribe without a target is ignored
    let reply = h.on_message(
        &mut subs,
        &WsMessage { op: Some(WsOp::Subscribe), payload: Some(WsPayload::Object), target: None },
    );
    assert_eq!(reply, vec!["KeyBlocks".to_string()]);
}
