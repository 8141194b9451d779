use mineshield_proxy::pinger::read_status_response;
use mineshield_proxy::status::{
    adjust_status_response_for_client, build_status_response, can_set_protocol,
    send_fallback_status_response, send_status_response, set_protocol, status_for_client,
    PingSession, PingStep, StatusError,
};

#[test]
fn the_protocol_version_follows_the_client() {
    let json = r#"{"version":{"name":"Paper","protocol":763},"players":{"max":20,"online":1}}"#;
    assert_eq!(
        adjust_status_response_for_client(json, 47).unwrap(),
        r#"{"players":{"max":20,"online":1},"version":{"name":"Paper","protocol":47}}"#
    );
    let twice = adjust_status_response_for_client(json, 47).unwrap();
    assert_eq!(
        adjust_status_response_for_client(&twice, 5),
        adjust_status_response_for_client(json, 5)
    );
}

#[test]
fn version_information_is_added_to_but_not_made_up() {
    assert_eq!(
        adjust_status_response_for_client(r#"{"version":{}}"#, 4294967295).unwrap(),
        r#"{"version":{"protocol":4294967295}}"#
    );
    assert_eq!(
        adjust_status_response_for_client(r#"{"version":null}"#, 7).unwrap(),
        r#"{"version":{"protocol":7}}"#
    );
    assert_eq!(adjust_status_response_for_client(r#"{"a":[1, 2]}"#, 7).unwrap(), r#"{"a":[1,2]}"#);
    assert_eq!(adjust_status_response_for_client("[]", 7).unwrap(), "[]");
}

#[test]
fn a_status_that_is_no_json_stays_as_it_is() {
    assert_eq!(adjust_status_response_for_client("{oops", 7), Err(StatusError::NotJson));
    assert_eq!(status_for_client("{oops", 7).as_deref(), Some("{oops"));
    let packet = send_status_response("{oops", 7).unwrap();
    assert_eq!(packet, build_status_response("{oops"));
}

#[test]
fn a_version_that_has_no_members_is_noticed() {
    let mut value: serde_json::Value = serde_json::from_str(r#"{"version":"1.20"}"#).unwrap();
    assert!(!can_set_protocol(&mut value));
    assert_eq!(value.to_string(), r#"{"version":"1.20"}"#);
    assert_eq!(status_for_client(r#"{"version":"1.20"}"#, 7), None);
    assert_eq!(send_status_response(r#"{"version":[]}"#, 7), None);
    let mut value: serde_json::Value = serde_json::from_str(r#"{"version":{"a":1}}"#).unwrap();
    assert!(can_set_protocol(&mut value));
    set_protocol(&mut value, 9);
    assert_eq!(value.to_string(), r#"{"version":{"a":1,"protocol":9}}"#);
}

#[test]
fn the_fallback_status() {
    let packet = send_fallback_status_response();
    let json = read_status_response(&packet).unwrap();
    assert_eq!(
        json,
        r#"{
  "version": {"name": "1.21.1", "protocol": 754},
  "players": {"max": 0, "online": 0, "sample": []},
  "description": {"text": "Unknown domain / server not found!"}
}"#
    );
    let value: serde_json::Value = serde_json::from_str(&json).unwrap();
    assert_eq!(value["version"]["protocol"], 754);
}

fn say(session: &mut PingSession, bytes: &[u8]) -> PingStep {
    for byte in &bytes[..bytes.len() - 1] {
        assert!(matches!(session.handle_ping(*byte), PingStep::Read));
    }
    session.handle_ping(bytes[bytes.len() - 1])
}

#[test]
fn a_ping_is_answered_with_its_own_bytes() {
    let mut session = PingSession::new();
    match say(&mut session, &[9, 1, 1, 2, 3, 4, 5, 6, 7, 8]) {
        PingStep::Answer(packet) => assert_eq!(packet, vec![9, 1, 1, 2, 3, 4, 5, 6, 7, 8]),
        _ => panic!("no answer"),
    }
}

#[test]
fn repeated_status_requests_are_passed_over() {
    let mut session = PingSession::new();
    assert!(matches!(say(&mut session, &[1, 0, 1, 0]), PingStep::Read));
    match say(&mut session, &[9, 1, 8, 7, 6, 5, 4, 3, 2, 1]) {
        PingStep::Answer(packet) => assert_eq!(packet, vec![9, 1, 8, 7, 6, 5, 4, 3, 2, 1]),
        _ => panic!("no answer"),
    }
}

#[test]
fn other_packets_end_the_conversation() {
    let mut session = PingSession::new();
    match say(&mut session, &[1, 0, 3, 0xab, 0x01]) {
        PingStep::Fail(why) => assert_eq!(why, "Unexpected packet in ping: 0xAB"),
        _ => panic!("accepted"),
    }
    let mut session = PingSession::new();
    match say(&mut session, &[1, 2]) {
        PingStep::Fail(why) => assert_eq!(why, "Unexpected packet in ping: 0x02"),
        _ => panic!("accepted"),
    }
    let mut session = PingSession::new();
    match say(&mut session, &[0x80; 6]) {
        PingStep::Fail(why) => assert_eq!(why, "VarInt too long"),
        _ => panic!("accepted"),
    }
}
