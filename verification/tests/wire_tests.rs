use tencer::wire::{ack_frame, parse_api_request, parse_handshake, parse_player_ids};

#[test]
fn handshake_example_frame() {
    let r = parse_handshake("{\"PlayerId\":\"42\",\"AppVersion\":\"1.0\"}");
    let (id, version) = r.expect("frame must parse");
    assert_eq!(id, 42);
    assert_eq!(version, "1.0");
}

#[test]
fn handshake_ack_is_fixed() {
    assert_eq!(ack_frame(), "{\"SessionId\":567}");
}

#[test]
fn handshake_negative_identity() {
    let r = parse_handshake("{\"PlayerId\":\"-7\",\"AppVersion\":\"x\"}");
    assert_eq!(r, Some((-7, "x".to_string())));
}

#[test]
fn handshake_leading_zeros() {
    let r = parse_handshake("{\"PlayerId\":\"0042\",\"AppVersion\":\"v\"}");
    assert_eq!(r, Some((42, "v".to_string())));
}

#[test]
fn handshake_identity_bounds() {
    let max = parse_handshake("{\"PlayerId\":\"2147483647\",\"AppVersion\":\"v\"}");
    assert_eq!(max, Some((2147483647, "v".to_string())));
    let min = parse_handshake("{\"PlayerId\":\"-2147483648\",\"AppVersion\":\"v\"}");
    assert_eq!(min, Some((-2147483648, "v".to_string())));
    let over = parse_handshake("{\"PlayerId\":\"2147483648\",\"AppVersion\":\"v\"}");
    assert_eq!(over, None);
    let under = parse_handshake("{\"PlayerId\":\"-2147483649\",\"AppVersion\":\"v\"}");
    assert_eq!(under, None);
    let way_over = parse_handshake("{\"PlayerId\":\"99999999999999999999\",\"AppVersion\":\"v\"}");
    assert_eq!(way_over, None);
}

#[test]
fn handshake_empty_version_is_accepted() {
    let r = parse_handshake("{\"PlayerId\":\"1\",\"AppVersion\":\"\"}");
    assert_eq!(r, Some((1, "".to_string())));
}

#[test]
fn handshake_malformed_frames_are_refused() {
    assert_eq!(parse_handshake(""), None);
    assert_eq!(parse_handshake("hello"), None);
    assert_eq!(parse_handshake("{\"PlayerId\":\"\",\"AppVersion\":\"v\"}"), None);
    assert_eq!(parse_handshake("{\"PlayerId\":\"-\",\"AppVersion\":\"v\"}"), None);
    assert_eq!(parse_handshake("{\"PlayerId\":\"4x\",\"AppVersion\":\"v\"}"), None);
    assert_eq!(parse_handshake("{\"PlayerId\":\"42\",\"AppVersion\":\"v\"} "), None);
    assert_eq!(parse_handshake("{\"PlayerId\":\"42\"}"), None);
    assert_eq!(parse_handshake("{\"AppVersion\":\"v\",\"PlayerId\":\"42\"}"), None);
}

#[test]
fn command_without_param() {
    let r = parse_api_request("{\"api\":\"heartbeat\"}").expect("must parse");
    assert_eq!(r.api, "heartbeat");
    assert_eq!(r.param, None);
}

#[test]
fn command_with_param() {
    let r = parse_api_request(
        "{\"api\":\"playerSubscriptions/v1/update\",\"param\":{\"PlayerIds\":[7]}}",
    )
    .expect("must parse");
    assert_eq!(r.api, "playerSubscriptions/v1/update");
    assert_eq!(r.param, Some("{\"PlayerIds\":[7]}".to_string()));
}

#[test]
fn command_malformed_frames_are_refused() {
    assert!(parse_api_request("").is_none());
    assert!(parse_api_request("{\"api\":\"x\"").is_none());
    assert!(parse_api_request("{\"api\":\"x\",\"param\":}").is_none());
    assert!(parse_api_request("{\"api\":\"x\",\"other\":1}").is_none());
}

#[test]
fn player_ids_single() {
    let r = parse_player_ids("{\"PlayerIds\":[7]}");
    assert_eq!(r, Some(vec![7]));
}

#[test]
fn player_ids_many_and_negative() {
    let r = parse_player_ids("{\"PlayerIds\":[1,-2,2147483647]}");
    assert_eq!(r, Some(vec![1, -2, 2147483647]));
}

#[test]
fn player_ids_empty_list() {
    let r = parse_player_ids("{\"PlayerIds\":[]}");
    assert_eq!(r, Some(vec![]));
}

#[test]
fn player_ids_malformed_are_refused() {
    assert_eq!(parse_player_ids(""), None);
    assert_eq!(parse_player_ids("{\"PlayerIds\":[}"), None);
    assert_eq!(parse_player_ids("{\"PlayerIds\":[1,]}"), None);
    assert_eq!(parse_player_ids("{\"PlayerIds\":[1 ,2]}"), None);
    assert_eq!(parse_player_ids("{\"PlayerIds\":[2147483648]}"), None);
    assert_eq!(parse_player_ids("{\"PlayerIds\":[1]} "), None);
}
