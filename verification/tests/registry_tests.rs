use futures::channel::mpsc::{channel, Receiver, Sender};
use tencer::dispatch::{execute, update, ApiError};
use tencer::global::Global;
use tencer::registry::{DeliveryError, Registry};
use tencer::wire::ApiRequest;

fn pipe() -> (Sender<String>, Receiver<String>) {
    channel(64)
}

#[test]
fn register_refuses_duplicates() {
    let mut reg = Registry::new();
    let (tx1, _rx1) = pipe();
    let (tx2, _rx2) = pipe();
    assert!(reg.register(42, tx1, "1.0".to_string()));
    assert!(!reg.register(42, tx2, "2.0".to_string()));
    assert!(reg.is_connected(42));
    assert!(!reg.is_connected(7));
}

#[test]
fn subscription_update_overwrites_previous_set() {
    let mut reg = Registry::new();
    let (tx1, _rx1) = pipe();
    let (tx2, _rx2) = pipe();
    let (tx3, _rx3) = pipe();
    assert!(reg.register(1, tx1, "v".to_string()));
    assert!(reg.register(2, tx2, "v".to_string()));
    assert!(reg.register(3, tx3, "v".to_string()));

    // identity 1 subscribes to 2 and 3, then only to 3: the first update
    // must leave no trace.
    assert!(reg.apply_subscription_update(1, &vec![2, 3]));
    assert_eq!(reg.lookup_subscribers(2), Some(vec![1]));
    assert_eq!(reg.lookup_subscribers(3), Some(vec![1]));
    assert!(reg.apply_subscription_update(1, &vec![3]));
    assert_eq!(reg.lookup_subscribers(2), Some(vec![]));
    assert_eq!(reg.lookup_subscribers(3), Some(vec![1]));
}

#[test]
fn subscription_update_needs_live_caller() {
    let mut reg = Registry::new();
    let (tx1, _rx1) = pipe();
    assert!(reg.register(1, tx1, "v".to_string()));
    assert!(!reg.apply_subscription_update(99, &vec![1]));
    assert_eq!(reg.lookup_subscribers(1), Some(vec![]));
}

#[test]
fn unregister_purges_subscriber_sets() {
    let mut reg = Registry::new();
    let (tx1, _rx1) = pipe();
    let (tx2, _rx2) = pipe();
    let (tx3, _rx3) = pipe();
    assert!(reg.register(1, tx1, "v".to_string()));
    assert!(reg.register(2, tx2, "v".to_string()));
    assert!(reg.register(3, tx3, "v".to_string()));
    assert!(reg.apply_subscription_update(3, &vec![1, 2]));
    assert_eq!(reg.lookup_subscribers(1), Some(vec![3]));
    assert_eq!(reg.lookup_subscribers(2), Some(vec![3]));

    reg.unregister(3);
    assert!(!reg.is_connected(3));
    assert_eq!(reg.lookup_subscribers(1), Some(vec![]));
    assert_eq!(reg.lookup_subscribers(2), Some(vec![]));
    assert_eq!(reg.lookup_subscribers(3), None);
}

#[test]
fn deliver_to_missing_identity_fails() {
    let mut reg = Registry::new();
    assert_eq!(
        reg.deliver(5, "hello".to_string()),
        Err(DeliveryError::TargetNotRegistered)
    );
}

#[test]
fn deliver_on_closed_channel_is_a_channel_error() {
    let mut reg = Registry::new();
    let (tx, rx) = pipe();
    assert!(reg.register(6, tx, "v".to_string()));
    drop(rx);
    assert_eq!(
        reg.deliver(6, "hello".to_string()),
        Err(DeliveryError::ChannelError)
    );
}

#[test]
fn deliver_hands_frame_to_channel() {
    let mut reg = Registry::new();
    let (tx, mut rx) = pipe();
    assert!(reg.register(5, tx, "v".to_string()));
    assert_eq!(reg.deliver(5, "hello".to_string()), Ok(()));
    assert_eq!(rx.try_next().unwrap(), Some("hello".to_string()));
}

#[test]
fn broadcast_after_disconnect_fails_as_unregistered() {
    let mut global = Global::new(false, "us".to_string());
    let (tx, _rx) = pipe();
    assert!(global.player_map.register(8, tx, "v".to_string()));
    assert!(global.send_msg_to_subscribed(12, "{}", 8).is_ok());
    global.player_map.unregister(8);
    assert_eq!(
        global.send_msg_to_subscribed(12, "{}", 8),
        Err(DeliveryError::TargetNotRegistered)
    );
}

#[test]
fn broadcast_is_best_effort_and_reports_failures() {
    let mut global = Global::new(false, "us".to_string());
    let (tx1, _rx1) = pipe();
    let (tx2, rx2) = pipe();
    let (tx3, mut rx3) = pipe();
    assert!(global.player_map.register(1, tx1, "v".to_string()));
    assert!(global.player_map.register(2, tx2, "v".to_string()));
    assert!(global.player_map.register(3, tx3, "v".to_string()));
    assert!(global.player_map.apply_subscription_update(2, &vec![1]));
    assert!(global.player_map.apply_subscription_update(3, &vec![1]));
    // identity 2's receiver is gone: its channel refuses the frame, but
    // identity 3 still gets it.
    drop(rx2);
    let failed = global.send_msg_to_subscribed(12, "null", 1).unwrap();
    assert_eq!(failed, vec![2]);
    assert_eq!(
        rx3.try_next().unwrap(),
        Some("{\"Id\":12,\"Msg\":null}".to_string())
    );
}

#[test]
fn dispatch_unknown_path_is_refused() {
    let mut reg = Registry::new();
    let req = ApiRequest { api: "no/such/path".to_string(), param: None };
    assert_eq!(execute(req, 1, &mut reg), Err(ApiError::UnknownPath));
}

#[test]
fn dispatch_heartbeat_succeeds() {
    let mut reg = Registry::new();
    let req = ApiRequest { api: "heartbeat".to_string(), param: None };
    assert_eq!(execute(req, 1, &mut reg), Ok(()));
}

#[test]
fn update_distinguishes_missing_and_invalid_params() {
    let mut reg = Registry::new();
    let (tx, _rx) = pipe();
    assert!(reg.register(1, tx, "v".to_string()));
    let none = ApiRequest {
        api: "playerSubscriptions/v1/update".to_string(),
        param: None,
    };
    assert_eq!(update(none, 1, &mut reg), Err(ApiError::NoParams));
    let bad = ApiRequest {
        api: "playerSubscriptions/v1/update".to_string(),
        param: Some("{\"Other\":[]}".to_string()),
    };
    assert_eq!(update(bad, 1, &mut reg), Err(ApiError::InvalidParams));
    let orphan = ApiRequest {
        api: "playerSubscriptions/v1/update".to_string(),
        param: Some("{\"PlayerIds\":[1]}".to_string()),
    };
    assert_eq!(update(orphan, 99, &mut reg), Err(ApiError::CallerNotFound));
}

#[test]
fn presence_scenario_over_live_connections() {
    // Handshake for identity 42, subscription from identity 7, presence
    // broadcast to 42's subscribers, and a broadcast to an absent identity.
    let (id, version) =
        tencer::wire::parse_handshake("{\"PlayerId\":\"42\",\"AppVersion\":\"1.0\"}").unwrap();
    assert_eq!(id, 42);
    assert_eq!(tencer::wire::ack_frame(), "{\"SessionId\":567}");

    let mut global = Global::new(false, "us".to_string());
    let (tx42, _rx42) = pipe();
    let (tx7, mut rx7) = pipe();
    assert!(global.player_map.register(id, tx42, version));
    assert!(global.player_map.register(7, tx7, "1.0".to_string()));

    let req = tencer::wire::parse_api_request(
        "{\"api\":\"playerSubscriptions/v1/update\",\"param\":{\"PlayerIds\":[42]}}",
    )
    .unwrap();
    assert_eq!(execute(req, 7, &mut global.player_map), Ok(()));
    assert_eq!(global.player_map.lookup_subscribers(42), Some(vec![7]));

    assert_eq!(global.send_msg_to_subscribed(12, "true", 42), Ok(vec![]));
    assert_eq!(
        rx7.try_next().unwrap(),
        Some("{\"Id\":12,\"Msg\":true}".to_string())
    );
    assert_eq!(
        global.send_msg_to_subscribed(12, "true", 99),
        Err(DeliveryError::TargetNotRegistered)
    );
}
