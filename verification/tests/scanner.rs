use ws_broker::scanner::get_objects;

#[test]
fn test_get_objects() {
    let tx: serde_json::Value = serde_json::from_str(
        r#"
{
    "block_hash": "mh_7iCkawgwm9akyXaBaEgfoL2Uhgz9k5b8vbSqx97spp9Ae1mLa",
    "block_height": 85113,
    "hash": "th_2vjbhonApccV6r7PjbR6qojfa2gyZ84xzTzX37g6vXgzZ9UKUn",
    "time": 1558700970133,
    "tx": {
      "amount": 13370000000000000,
      "fee": 16900000000000,
      "nonce": 32,
      "payload": "ba_Xfbg4g==",
      "recipient_id": "ak_gxMtcfvnd7aN9XdpmdNgRRETnLL4TNQ4uJgyLzcbBFa3vx6Da",
      "sender_id": "ak_2eid5UDLCVxNvqL95p9UtHmHQKbiFQahRfoo839DeQuBo8A3Qc",
      "type": "SpendTx",
      "version": 1
    }
  }
"#,
    )
    .unwrap();
    println!("{}", tx.to_string());
    let objects = get_objects(&tx.to_string());
    println!("{:?}", objects);
    assert!(objects.contains(&"mh_7iCkawgwm9akyXaBaEgfoL2Uhgz9k5b8vbSqx97spp9Ae1mLa".to_string()));
}

#[test]
fn test_get_objects2() {
    let tx: serde_json::Value = serde_json::from_str(
        r#"
{"fee": 452020000000000, "gas": 1579000, "type": "ContractCallTx", "nonce": 49, "amount": 0, "version": 1, "call_data": "cb_KxGyMFZfP9Js5cM=", "caller_id": "ak_UQkorD6ZG4u2Ac8J2bEGEaE5jLABvWo6VHJhRDR9N7UnWHvzb", "gas_price": 1000000000, "abi_version": 3, "contract_id": "ct_ouZib4wT9cNwgRA1pxgA63XEUd8eQRrG8PcePDEYogBc1VYTq"}
"#,
    )
    .unwrap();
    println!("{}", tx.to_string());
    let objects = get_objects(&tx.to_string());
    println!("{:?}", objects);
    assert!(objects.contains(&"ct_ouZib4wT9cNwgRA1pxgA63XEUd8eQRrG8PcePDEYogBc1VYTq".to_string()));
}

#[test]
fn scan_returns_exactly_the_embedded_identifiers() {
    let text = r#"{"caller_id": "ak_UQkorD6ZG4u2Ac8J2bEGEaE5jLABvWo6VHJhRDR9N7UnWHvzb", "contract_id": "ct_ouZib4wT9cNwgRA1pxgA63XEUd8eQRrG8PcePDEYogBc1VYTq"}"#;
    let objects = get_objects(text);
    assert_eq!(objects.len(), 2);
    assert!(objects.contains(&"ak_UQkorD6ZG4u2Ac8J2bEGEaE5jLABvWo6VHJhRDR9N7UnWHvzb".to_string()));
    assert!(objects.contains(&"ct_ouZib4wT9cNwgRA1pxgA63XEUd8eQRrG8PcePDEYogBc1VYTq".to_string()));
}

#[test]
fn scan_deduplicates_repeated_identifiers() {
    let id = "ak_UQkorD6ZG4u2Ac8J2bEGEaE5jLABvWo6VHJhRDR9N7UnWHvzb";
    let text = format!("{} and again {}", id, id);
    let objects = get_objects(&text);
    assert_eq!(objects, vec![id.to_string()]);
}

#[test]
fn scan_ignores_short_and_broken_tokens() {
    // 37 body characters: one too few.
    let text = "ak_1111111111111111111111111111111111111";
    assert_eq!(get_objects(text).len(), 0);
    // the excluded letter l breaks the run early
    let text2 = "ak_l111111111111111111111111111111111111111111";
    assert_eq!(get_objects(text2).len(), 0);
    assert_eq!(get_objects("").len(), 0);
    assert_eq!(get_objects("no identifiers here").len(), 0);
}

#[test]
fn scan_caps_a_match_at_sixty_body_characters() {
    let body = "1".repeat(70);
    let text = format!("ak_{}", body);
    let objects = get_objects(&text);
    assert_eq!(objects.len(), 1);
    assert_eq!(objects[0].len(), 3 + 60);
}
