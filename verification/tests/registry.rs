use ws_broker::registry::Subscriptions;
use ws_broker::types::Candidate;
use ws_broker::types::Client;
use ws_broker::types::WsPayload;

#[test]
fn test_subs() {
    let subs = Subscriptions::new();
    let sub = subs.get_subscription(WsPayload::KeyBlocks).unwrap();
    assert_eq!(sub.len(), 0);
}

#[test]
fn the_object_category_has_no_vanilla_set() {
    let mut subs = Subscriptions::new();
    assert!(subs.get_subscription(WsPayload::Object).is_none());
    // subscribing to the object category without a target changes nothing
    let c = Client { token: 1 };
    subs.vanilla_subscribe(&WsPayload::Object, &c);
    assert_eq!(subs.subs_for_client(c).len(), 0);
    for kind in [
        WsPayload::KeyBlocks,
        WsPayload::MicroBlocks,
        WsPayload::Transactions,
        WsPayload::TxUpdate,
    ] {
        assert_eq!(subs.get_subscription(kind).unwrap().len(), 0);
    }
}

#[test]
fn vanilla_subscribe_is_idempotent() {
    let c = Client { token: 1 };
    let mut subs = Subscriptions::new();
    subs.vanilla_subscribe(&WsPayload::KeyBlocks, &c);
    let once = subs.get_subscription(WsPayload::KeyBlocks).unwrap();
    subs.vanilla_subscribe(&WsPayload::KeyBlocks, &c);
    subs.vanilla_subscribe(&WsPayload::KeyBlocks, &c);
    let thrice = subs.get_subscription(WsPayload::KeyBlocks).unwrap();
    assert_eq!(once, thrice);
    assert_eq!(once, vec![c]);
}

#[test]
fn object_subscribe_is_idempotent() {
    let c = Client { token: 7 };
    let id = "ak_UQkorD6ZG4u2Ac8J2bEGEaE5jLABvWo6VHJhRDR9N7UnWHvzb";
    let mut subs = Subscriptions::new();
    subs.object_subscribe(c, id.to_string());
    let once = subs.subs_for_client(c);
    subs.object_subscribe(c, id.to_string());
    subs.object_subscribe(c, id.to_string());
    let thrice = subs.subs_for_client(c);
    assert_eq!(once, thrice);
    assert_eq!(once, vec![id.to_string()]);
}

#[test]
fn unsubscribe_is_idempotent_and_absent_is_a_noop() {
    let c = Client { token: 2 };
    let d = Client { token: 3 };
    let id = "ak_UQkorD6ZG4u2Ac8J2bEGEaE5jLABvWo6VHJhRDR9N7UnWHvzb";
    let mut subs = Subscriptions::new();
    subs.vanilla_subscribe(&WsPayload::MicroBlocks, &c);
    subs.object_subscribe(c, id.to_string());
    // removing something that was never there changes nothing
    subs.vanilla_unsubscribe(&WsPayload::MicroBlocks, &d);
    subs.object_unsubscribe(d, id.to_string());
    assert_eq!(subs.subs_for_client(c), vec!["MicroBlocks".to_string(), id.to_string()]);
    // removing twice equals removing once
    subs.vanilla_unsubscribe(&WsPayload::MicroBlocks, &c);
    subs.vanilla_unsubscribe(&WsPayload::MicroBlocks, &c);
    subs.object_unsubscribe(c, id.to_string());
    subs.object_unsubscribe(c, id.to_string());
    assert_eq!(subs.subs_for_client(c).len(), 0);
}

#[test]
fn disconnect_is_complete_and_idempotent() {
    let c = Client { token: 4 };
    let other = Client { token: 5 };
    let id = "ak_UQkorD6ZG4u2Ac8J2bEGEaE5jLABvWo6VHJhRDR9N7UnWHvzb";
    let mut subs = Subscriptions::new();
    subs.vanilla_subscribe(&WsPayload::KeyBlocks, &c);
    subs.vanilla_subscribe(&WsPayload::MicroBlocks, &c);
    subs.object_subscribe(c, id.to_string());
    subs.object_subscribe(other, id.to_string());
    subs.client_unsubscribe(c);
    assert_eq!(subs.subs_for_client(c).len(), 0);
    // the other client's subscription survives
    assert_eq!(subs.subs_for_client(other), vec![id.to_string()]);
    let candidate = Candidate { payload: WsPayload::Object, data: format!("\"{}\"", id) };
    let recipients = subs.clients_for_object(&candidate);
    assert_eq!(recipients, vec![other]);
    // disconnecting again is safe and changes nothing
    subs.client_unsubscribe(c);
    assert_eq!(subs.subs_for_client(other), vec![id.to_string()]);
}

#[test]
fn category_isolation() {
    let a = Client { token: 10 };
    let b = Client { token: 11 };
    let mut subs = Subscriptions::new();
    subs.vanilla_subscribe(&WsPayload::KeyBlocks, &a);
    subs.vanilla_subscribe(&WsPayload::MicroBlocks, &b);
    let kb = Candidate { payload: WsPayload::KeyBlocks, data: "{}".to_string() };
    let mb = Candidate { payload: WsPayload::MicroBlocks, data: "{}".to_string() };
    assert_eq!(subs.clients_for_object(&kb), vec![a]);
    assert_eq!(subs.clients_for_object(&mb), vec![b]);
}

#[test]
fn object_matching_by_payload_scan() {
    let a = Client { token: 20 };
    let b = Client { token: 21 };
    let id = "mh_7iCkawgwm9akyXaBaEgfoL2Uhgz9k5b8vbSqx97spp9Ae1mLa";
    let other_id = "ak_UQkorD6ZG4u2Ac8J2bEGEaE5jLABvWo6VHJhRDR9N7UnWHvzb";
    let mut subs = Subscriptions::new();
    subs.object_subscribe(a, id.to_string());
    subs.object_subscribe(b, other_id.to_string());
    let payload = format!("{{\"block_hash\": \"{}\"}}", id);
    let candidate = Candidate { payload: WsPayload::Object, data: payload };
    let recipients = subs.clients_for_object(&candidate);
    assert!(recipients.contains(&a));
    assert!(!recipients.contains(&b));
}

#[test]
fn listed_subscriptions_follow_declaration_order_and_the_update_quirk() {
    let c = Client { token: 30 };
    let id = "ak_UQkorD6ZG4u2Ac8J2bEGEaE5jLABvWo6VHJhRDR9N7UnWHvzb";
    let mut subs = Subscriptions::new();
    subs.object_subscribe(c, id.to_string());
    subs.vanilla_subscribe(&WsPayload::Transactions, &c);
    subs.vanilla_subscribe(&WsPayload::KeyBlocks, &c);
    // a transactions subscription is listed under both names, in fixed order
    assert_eq!(
        subs.subs_for_client(c),
        vec![
            "KeyBlocks".to_string(),
            "Transactions".to_string(),
            "TxUpdate".to_string(),
            id.to_string()
        ]
    );
    // an update-only subscription is not listed, though it receives events
    let c2 = Client { token: 31 };
    subs.vanilla_subscribe(&WsPayload::TxUpdate, &c2);
    assert_eq!(subs.subs_for_client(c2).len(), 0);
    let tu = Candidate { payload: WsPayload::TxUpdate, data: "{}".to_string() };
    assert_eq!(subs.clients_for_object(&tu), vec![c2]);
}

#[test]
fn unknown_object_identifier_matches_no_subscription() {
    let a = Client { token: 40 };
    let mut subs = Subscriptions::new();
    subs.object_subscribe(a, "ak_UQkorD6ZG4u2Ac8J2bEGEaE5jLABvWo6VHJhRDR9N7UnWHvzb".to_string());
    let candidate = Candidate {
        payload: WsPayload::Object,
        data: "{\"hash\": \"th_2vjbhonApccV6r7PjbR6qojfa2gyZ84xzTzX37g6vXgzZ9UKUn\"}".to_string(),
    };
    let recipients = subs.clients_for_object(&candidate);
    assert_eq!(recipients.len(), 0);
}
