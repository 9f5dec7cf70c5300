use mempool_fee_monitor::alert::AlertConfig;
use mempool_fee_monitor::binary64::Binary64;
use mempool_fee_monitor::client::handshake_messages;
use mempool_fee_monitor::client::react_to_text;
use mempool_fee_monitor::client::react_to_update;
use mempool_fee_monitor::client::ClientAction;
use mempool_fee_monitor::client::ClientState;
use mempool_fee_monitor::client::FeedClient;
use mempool_fee_monitor::client::FeedEvent;
use mempool_fee_monitor::decoder::process_mempool_blocks;

fn config(threshold: f64, window: usize) -> AlertConfig {
    AlertConfig { threshold_fee_rate: Binary64::from_bits(threshold.to_bits()), window_size: window }
}

fn streaming(threshold: f64, window: usize) -> FeedClient {
    let mut client = FeedClient::new(config(threshold, window));
    client.handle(&FeedEvent::Connected);
    client.handle(&FeedEvent::HandshakeSent);
    assert_eq!(client.state, ClientState::Streaming);
    client
}

fn all_events() -> Vec<FeedEvent> {
    vec![
        FeedEvent::Connected,
        FeedEvent::ConnectFailed,
        FeedEvent::HandshakeSent,
        FeedEvent::HandshakeFailed,
        FeedEvent::Text(ONE_BLOCK.to_string()),
        FeedEvent::Close,
        FeedEvent::TransportError,
        FeedEvent::StreamEnded,
        FeedEvent::Other,
    ]
}

const ONE_BLOCK: &str =
    r#"{"mempool-blocks":[{"medianFee":10,"feeRange":[5,20],"totalFees":100000000,"nTx":50}]}"#;

#[test]
fn the_handshake_is_init_then_want() {
    let messages = handshake_messages();
    assert_eq!(
        messages,
        vec![r#"{"action":"init"}"#, r#"{"action":"want","data":["mempool-blocks"]}"#]
    );
}

#[test]
fn the_handshake_messages_are_json_objects() {
    let messages = handshake_messages();
    let mut init = serde_json::Map::new();
    init.insert("action".to_string(), serde_json::Value::from("init"));
    let mut want = serde_json::Map::new();
    want.insert("action".to_string(), serde_json::Value::from("want"));
    want.insert(
        "data".to_string(),
        serde_json::Value::Array(vec![serde_json::Value::from("mempool-blocks")]),
    );
    let first: serde_json::Value = serde_json::from_str(messages[0]).unwrap();
    let second: serde_json::Value = serde_json::from_str(messages[1]).unwrap();
    assert_eq!(first, serde_json::Value::Object(init.clone()));
    assert_eq!(second, serde_json::Value::Object(want.clone()));
    assert_eq!(messages[0], serde_json::Value::Object(init).to_string());
    assert_eq!(messages[1], serde_json::Value::Object(want).to_string());
}

#[test]
fn a_new_client_is_connecting() {
    let client = FeedClient::new(config(560.0, 2));
    assert_eq!(client.state, ClientState::Connecting);
    assert_eq!(client.config, config(560.0, 2));
    assert!(!client.is_terminated());
}

#[test]
fn a_run_from_connection_to_close() {
    let mut client = FeedClient::new(config(6.0, 1));
    assert!(matches!(client.handle(&FeedEvent::Connected), ClientAction::SendHandshake));
    assert_eq!(client.state, ClientState::Handshaking);
    assert!(matches!(client.handle(&FeedEvent::HandshakeSent), ClientAction::Continue));
    assert_eq!(client.state, ClientState::Streaming);
    match client.handle(&FeedEvent::Text(ONE_BLOCK.to_string())) {
        ClientAction::RaiseAlert(blocks) => {
            assert_eq!(blocks.len(), 1);
            assert_eq!(f64::from_bits(blocks[0].total_fees.to_bits()), 1.0);
        },
        other => panic!("{:?}", other),
    }
    assert_eq!(client.state, ClientState::Streaming);
    assert!(matches!(client.handle(&FeedEvent::Close), ClientAction::ReportClosed));
    assert_eq!(client.state, ClientState::Terminated);
    assert!(client.is_terminated());
    assert_eq!(client.config, config(6.0, 1));
}

#[test]
fn a_failed_connection_ends_the_run_in_failure() {
    let mut client = FeedClient::new(config(6.0, 1));
    assert!(matches!(client.handle(&FeedEvent::ConnectFailed), ClientAction::Fail));
    assert_eq!(client.state, ClientState::Terminated);
}

#[test]
fn a_failed_handshake_ends_the_run_in_failure() {
    let mut client = FeedClient::new(config(6.0, 1));
    client.handle(&FeedEvent::Connected);
    assert!(matches!(client.handle(&FeedEvent::HandshakeFailed), ClientAction::Fail));
    assert_eq!(client.state, ClientState::Terminated);
}

#[test]
fn malformed_text_is_passed_over() {
    let mut client = streaming(6.0, 1);
    for text in ["", "not json", "{", r#"{"mempool-blocks":[}"#, "{'a':1}", "nul", "1 2"] {
        let action = client.handle(&FeedEvent::Text(text.to_string()));
        assert!(matches!(action, ClientAction::Continue), "{}", text);
        assert_eq!(client.state, ClientState::Streaming);
    }
    match client.handle(&FeedEvent::Text(ONE_BLOCK.to_string())) {
        ClientAction::RaiseAlert(blocks) => assert_eq!(blocks.len(), 1),
        other => panic!("{:?}", other),
    }
}

#[test]
fn an_update_over_the_threshold_raises_nothing() {
    let mut client = streaming(4.0, 1);
    let action = client.handle(&FeedEvent::Text(ONE_BLOCK.to_string()));
    assert!(matches!(action, ClientAction::Continue));
    assert_eq!(client.state, ClientState::Streaming);
}

#[test]
fn every_qualifying_update_raises_the_alert_again() {
    let mut client = streaming(6.0, 1);
    for _ in 0..3 {
        let action = client.handle(&FeedEvent::Text(ONE_BLOCK.to_string()));
        assert!(matches!(action, ClientAction::RaiseAlert(_)));
    }
}

#[test]
fn a_transport_error_is_reported_and_the_run_goes_on() {
    let mut client = streaming(6.0, 1);
    assert!(matches!(client.handle(&FeedEvent::TransportError), ClientAction::ReportError));
    assert_eq!(client.state, ClientState::Streaming);
    assert!(matches!(
        client.handle(&FeedEvent::Text(ONE_BLOCK.to_string())),
        ClientAction::RaiseAlert(_)
    ));
}

#[test]
fn the_end_of_the_stream_ends_the_run_with_success() {
    let mut client = streaming(6.0, 1);
    assert!(matches!(client.handle(&FeedEvent::StreamEnded), ClientAction::Stop));
    assert_eq!(client.state, ClientState::Terminated);
}

#[test]
fn other_messages_are_passed_over() {
    let mut client = streaming(6.0, 1);
    assert!(matches!(client.handle(&FeedEvent::Other), ClientAction::Continue));
    assert_eq!(client.state, ClientState::Streaming);
}

#[test]
fn a_terminated_client_stays_terminated() {
    for event in all_events() {
        let mut client = streaming(6.0, 1);
        client.handle(&FeedEvent::Close);
        assert!(matches!(client.handle(&event), ClientAction::Stop));
        assert_eq!(client.state, ClientState::Terminated);
    }
}

#[test]
fn events_out_of_place_change_nothing() {
    for event in all_events() {
        if matches!(event, FeedEvent::Connected | FeedEvent::ConnectFailed) {
            continue;
        }
        let mut client = FeedClient::new(config(6.0, 1));
        assert!(matches!(client.handle(&event), ClientAction::Continue));
        assert_eq!(client.state, ClientState::Connecting);
    }
    for event in all_events() {
        if matches!(event, FeedEvent::HandshakeSent | FeedEvent::HandshakeFailed) {
            continue;
        }
        let mut client = FeedClient::new(config(6.0, 1));
        client.handle(&FeedEvent::Connected);
        assert!(matches!(client.handle(&event), ClientAction::Continue));
        assert_eq!(client.state, ClientState::Handshaking);
    }
    for event in [
        FeedEvent::Connected,
        FeedEvent::ConnectFailed,
        FeedEvent::HandshakeSent,
        FeedEvent::HandshakeFailed,
    ] {
        let mut client = streaming(6.0, 1);
        assert!(matches!(client.handle(&event), ClientAction::Continue));
        assert_eq!(client.state, ClientState::Streaming);
    }
}

#[test]
fn no_alert_before_the_stream() {
    let mut client = FeedClient::new(config(6.0, 1));
    let action = client.handle(&FeedEvent::Text(ONE_BLOCK.to_string()));
    assert!(matches!(action, ClientAction::Continue));
    client.handle(&FeedEvent::Connected);
    let action = client.handle(&FeedEvent::Text(ONE_BLOCK.to_string()));
    assert!(matches!(action, ClientAction::Continue));
}

#[test]
fn a_text_reacts_as_its_update_does() {
    let update: serde_json::Value = serde_json::from_str(ONE_BLOCK).unwrap();
    match (react_to_text(ONE_BLOCK, &config(6.0, 1)), react_to_update(&update, &config(6.0, 1))) {
        (ClientAction::RaiseAlert(from_text), ClientAction::RaiseAlert(from_update)) => {
            assert_eq!(from_text, from_update);
            assert_eq!(from_text, process_mempool_blocks(&update));
        },
        other => panic!("{:?}", other),
    }
    assert!(matches!(react_to_text(ONE_BLOCK, &config(4.0, 1)), ClientAction::Continue));
    assert!(matches!(react_to_update(&update, &config(4.0, 1)), ClientAction::Continue));
    assert!(matches!(react_to_text(ONE_BLOCK, &config(6.0, 0)), ClientAction::Continue));
}

#[test]
fn text_without_blocks_raises_nothing() {
    for text in ["{}", "[]", "null", r#"{"mempool-blocks":[]}"#, r#"{"mempool-blocks":3}"#] {
        assert!(matches!(react_to_text(text, &config(6.0, 5)), ClientAction::Continue));
    }
}

#[test]
fn the_alert_carries_the_qualifying_blocks_only() {
    let text = r#"{"mempool-blocks":[
        {"medianFee":10,"feeRange":[8,20],"totalFees":100000000,"nTx":50},
        {"medianFee":10,"feeRange":[2,20],"totalFees":200000000,"nTx":51},
        {"medianFee":10,"feeRange":[1,20],"totalFees":300000000,"nTx":52}
    ]}"#;
    match react_to_text(text, &config(6.0, 2)) {
        ClientAction::RaiseAlert(blocks) => {
            assert_eq!(blocks.len(), 1);
            assert_eq!(blocks[0].index, 1);
            assert_eq!(blocks[0].n_tx, 51);
            assert_eq!(f64::from_bits(blocks[0].total_fees.to_bits()), 2.0);
        },
        other => panic!("{:?}", other),
    }
}
