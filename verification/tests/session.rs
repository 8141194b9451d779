use mineshield_proxy::addr::{IpAddr, Ipv4Addr, SocketAddr};
use mineshield_proxy::config_loader::{
    apply_config, Config, PrometheusExporterConfig, Redirection, Settings,
};
use mineshield_proxy::haproxy::{encapsulate_with_proxy_protocol, encode_proxy_protocol_v2_header};
use mineshield_proxy::limbo::{
    append_raw_packet, awaited, capture_handshake, capture_more, encode_varint, hold_connection, limbo_step,
    read_packet_id, timer_after, try_parse_packet_header, verify_client_stream, wait_for_login_start,
    CaptureError, CaptureStep, HandshakeCapture, LimboError, LimboEvent, LimboSession, LimboStep,
    LimboTimer, ReplayBuffer, READ_CHUNK,
};
use mineshield_proxy::pinger::{
    build_handshake_packet, build_proxy_protocol_header, build_status_request_packet,
    missing_bytes, ping_target, read_status_response, StatusCache,
};
use mineshield_proxy::proxy::{block_ip, is_ip_blocked, promote_active, save_ip_status, ProxyState};
use mineshield_proxy::session::{
    decode_handshake_packet_ext, first_read, greet, handle_client, next_read, server_reached,
    verify_with_limbo, Admitted, Caller, ClientAction, GreetDecision, GreetStep, ReadOutcome,
};
use mineshield_proxy::status::{send_fallback_status_response, send_status_response};
use mineshield_proxy::wire::{frame, write_string, write_varint, ReadError};

const CLIENT: IpAddr = IpAddr::V4(Ipv4Addr { a: 203, b: 0, c: 113, d: 9 });

fn handshake(domain: &str, protocol: u32, port: u16, next_state: u32) -> Vec<u8> {
    let mut payload = Vec::new();
    write_varint(0, &mut payload);
    write_varint(protocol, &mut payload);
    write_string(domain, &mut payload);
    payload.extend_from_slice(&port.to_be_bytes());
    write_varint(next_state, &mut payload);
    frame(&payload)
}

fn capture(bytes: Vec<u8>) -> HandshakeCapture {
    match capture_handshake(bytes) {
        Ok(CaptureStep::Done(capture)) => capture,
        other => panic!("{:?}", other),
    }
}

fn let_in(state: &mut ProxyState, ip: IpAddr, now: u64) -> Admitted {
    match greet(state, &ip, now) {
        GreetDecision::Read(admitted) => admitted,
        GreetDecision::Shutdown => panic!("turned away"),
    }
}

fn caller(state: &mut ProxyState, now: u64) -> Caller {
    let admitted = let_in(state, CLIENT, now);
    Caller { admitted, ip_text: "203.0.113.9".to_string(), now }
}

fn settings(connections: usize, pings: usize) -> Settings {
    let mut settings = Settings::new();
    let config = Config {
        bind_address: String::new(),
        proxy_threads: 4,
        ntfy_server: String::new(),
        ntfy_topic: String::new(),
        prometheus_exporter: PrometheusExporterConfig::default(),
        debug: false,
        redirections: vec![Redirection {
            incoming_domain: "Play.Example".to_string(),
            target: "10.0.0.1:25577".to_string(),
            max_connections_per_second: connections,
            max_packet_per_second: 0,
            max_ping_response_per_second: pings,
        }],
    };
    let bind = settings.bind_address;
    let exporter = settings.exporter_address;
    let answers = vec![Ok(Vec::new())];
    assert_eq!(apply_config(&mut settings, &config, bind, exporter, &answers).len(), 0);
    settings
}

#[test]
fn handshakes_are_decoded() {
    let mut bytes = handshake("Play.EXAMPLE", 763, 25565, 2);
    bytes.push(0xff);
    let (domain, next_state, protocol) = decode_handshake_packet_ext(&bytes).unwrap();
    assert_eq!(domain, "play.example");
    assert_eq!(next_state, 2);
    assert_eq!(protocol, 763);
}

#[test]
fn our_own_handshake_is_decoded() {
    let packet = build_handshake_packet("Server.local", 754, 25577);
    assert_eq!(packet, handshake("Server.local", 754, 25577, 1));
    assert_eq!(
        decode_handshake_packet_ext(&packet),
        Ok(("server.local".to_string(), 1, 754))
    );
}

#[test]
fn handshakes_that_cannot_be_decoded() {
    assert_eq!(decode_handshake_packet_ext(&[]), Err(ReadError::UnexpectedEof));
    let whole = handshake("a", 1, 1, 1);
    for n in 0..whole.len() {
        assert_eq!(decode_handshake_packet_ext(&whole[..n]), Err(ReadError::UnexpectedEof));
    }
    assert_eq!(
        decode_handshake_packet_ext(&handshake(&"d".repeat(256), 1, 1, 1)),
        Err(ReadError::StringTooLong)
    );
    assert_eq!(
        decode_handshake_packet_ext(&[1, 0, 1, 1, 0xff, 0, 0, 1]),
        Err(ReadError::InvalidUtf8(0, Some(1)))
    );
    assert_eq!(decode_handshake_packet_ext(&[0x80; 7]), Err(ReadError::VarIntTooLong));
}

#[test]
fn packet_headers() {
    assert_eq!(try_parse_packet_header(&[]), Ok(None));
    assert_eq!(try_parse_packet_header(&[0x80]), Ok(None));
    assert_eq!(try_parse_packet_header(&[0x05, 9]), Ok(Some((5, 1))));
    assert_eq!(try_parse_packet_header(&[0xac, 0x02]), Ok(Some((300, 2))));
    assert_eq!(try_parse_packet_header(&[0x80; 5]), Ok(None));
    assert_eq!(try_parse_packet_header(&[0x80; 6]), Err(CaptureError::LengthTooLong));
}

#[test]
fn a_handshake_is_captured_however_it_arrives() {
    let bytes = handshake("play.example", 763, 25565, 2);
    let mut step = capture_handshake(Vec::new()).unwrap();
    for byte in &bytes {
        match step {
            CaptureStep::Done(_) => panic!("too early"),
            _ => step = capture_more(step, &[*byte]).unwrap(),
        }
    }
    match step {
        CaptureStep::Done(capture) => {
            assert_eq!(capture.buffer(), &bytes[..]);
            assert_eq!(capture.payload(), bytes[1..].to_vec());
            assert_eq!(capture.into_parts(), (bytes.clone(), 1, bytes.len() - 1));
        }
        other => panic!("{:?}", other),
    }
}

#[test]
fn a_capture_says_what_is_missing() {
    match capture_handshake(vec![10, 1, 2, 3]) {
        Ok(CaptureStep::Body(bytes, missing)) => {
            assert_eq!(bytes, vec![10, 1, 2, 3]);
            assert_eq!(missing, 7);
        }
        other => panic!("{:?}", other),
    }
}

#[test]
fn a_client_that_goes_away_during_its_handshake() {
    let header = capture_handshake(vec![0x80]).unwrap();
    assert_eq!(capture_more(header, &[]).unwrap_err(), CaptureError::ClosedInHeader);
    let body = capture_handshake(vec![2, 0]).unwrap();
    assert_eq!(capture_more(body, &[]).unwrap_err(), CaptureError::ClosedInBody);
}

#[test]
fn capture_errors_in_words() {
    assert_eq!(CaptureError::LengthTooLong.message(), "Handshake length varint too long");
    assert_eq!(
        CaptureError::ClosedInHeader.message(),
        "Client disconnected before handshake finished"
    );
    assert_eq!(
        CaptureError::ClosedInBody.message(),
        "Client disconnected before handshake body finished"
    );
    assert_eq!(CaptureError::TimedOut.message(), "Timed out waiting for handshake data");
}

#[test]
fn the_first_bytes_decide_how_a_client_is_greeted() {
    assert!(matches!(first_read(ReadOutcome::Bytes(vec![])), GreetStep::Drop));
    assert!(matches!(first_read(ReadOutcome::Failed), GreetStep::Shutdown));
    assert!(matches!(first_read(ReadOutcome::TimedOut), GreetStep::Shutdown));
    assert!(matches!(first_read(ReadOutcome::Bytes(vec![0x80; 6])), GreetStep::Shutdown));
    let step = match first_read(ReadOutcome::Bytes(vec![2, 0])) {
        GreetStep::Capture(step) => step,
        other => panic!("{:?}", other),
    };
    match next_read(step, ReadOutcome::Bytes(vec![7, 8])) {
        GreetStep::Capture(CaptureStep::Done(capture)) => {
            assert_eq!(capture.into_buffer(), vec![2, 0, 7, 8]);
        }
        other => panic!("{:?}", other),
    }
    let step = capture_handshake(vec![2, 0]).unwrap();
    assert!(matches!(next_read(step, ReadOutcome::Bytes(vec![])), GreetStep::Shutdown));
    let step = capture_handshake(vec![2, 0]).unwrap();
    assert!(matches!(next_read(step, ReadOutcome::TimedOut), GreetStep::Shutdown));
}

#[test]
fn a_bad_handshake_gets_the_client_blocked() {
    let mut state = ProxyState::new();
    let from = caller(&mut state, 1000);
    let action = handle_client(
        &mut state,
        &settings(0, 0),
        &StatusCache::new(),
        false,
        capture(vec![1, 0]),
        &from,
    );
    match action {
        ClientAction::Block(why) => assert_eq!(
            why,
            "Handshake decoding error from 203.0.113.9: failed to fill whole buffer. Mitigating potential attack, blocking ip for 300 secs"
        ),
        other => panic!("{:?}", other),
    }
    assert!(is_ip_blocked(&mut state, &CLIENT, 1299));
    assert!(!is_ip_blocked(&mut state, &CLIENT, 1300));
}

#[test]
fn status_requests_are_answered_from_the_cache() {
    let mut state = ProxyState::new();
    let mut cache = StatusCache::new();
    let json = r#"{"description":"hi","version":{"name":"1.20","protocol":763}}"#;
    cache.record("play.example", Some(json.to_string()));
    cache.record("play.example", None);
    assert_eq!(cache.get("play.example").as_deref(), Some(json));
    let from = caller(&mut state, 1000);
    let action = handle_client(
        &mut state,
        &settings(0, 0),
        &cache,
        true,
        capture(handshake("PLAY.example", 47, 25565, 1)),
        &from,
    );
    match action {
        ClientAction::SendStatus(packet) => assert_eq!(
            read_status_response(&packet).unwrap(),
            r#"{"description":"hi","version":{"name":"1.20","protocol":47}}"#
        ),
        other => panic!("{:?}", other),
    }
    assert_eq!(save_ip_status(&state)[0].status, 2);
}

#[test]
fn an_unknown_domain_gets_the_fallback_status() {
    for next_state in [1, 2] {
        let mut state = ProxyState::new();
        let from = caller(&mut state, 1000);
        let action = handle_client(
            &mut state,
            &settings(0, 0),
            &StatusCache::new(),
            false,
            capture(handshake("nobody", 47, 25565, next_state)),
            &from,
        );
        match action {
            ClientAction::SendStatus(packet) => assert_eq!(packet, send_fallback_status_response()),
            other => panic!("{:?}", other),
        }
        assert_eq!(save_ip_status(&state).len(), if next_state == 1 { 1 } else { 0 });
    }
}

#[test]
fn too_many_pings_get_the_client_blocked() {
    let mut state = ProxyState::new();
    let settings = settings(0, 1);
    let cache = StatusCache::new();
    let request = handshake("play.example", 47, 25565, 1);
    let from = caller(&mut state, 5);
    let first =
        handle_client(&mut state, &settings, &cache, false, capture(request.clone()), &from);
    assert!(matches!(first, ClientAction::SendStatus(_)));
    let from = caller(&mut state, 5);
    match handle_client(&mut state, &settings, &cache, false, capture(request), &from) {
        ClientAction::Block(why) => assert_eq!(
            why,
            "Too many incoming pings to domain 'play.example' from IP '203.0.113.9' mitigating DoS attack, blocking ip for 300 secs"
        ),
        other => panic!("{:?}", other),
    }
    assert!(is_ip_blocked(&mut state, &CLIENT, 5));
}

#[test]
fn too_many_connections_get_the_client_blocked() {
    let mut state = ProxyState::new();
    let settings = settings(1, 0);
    let cache = StatusCache::new();
    let request = handshake("play.example", 47, 25565, 2);
    let from = caller(&mut state, 5);
    let first =
        handle_client(&mut state, &settings, &cache, false, capture(request.clone()), &from);
    match first {
        ClientAction::Dial(login, bytes) => {
            assert_eq!(login.domain, "play.example");
            assert_eq!(login.config.ip, Ipv4Addr { a: 10, b: 0, c: 0, d: 1 });
            assert_eq!(login.config.port, 25577);
            assert_eq!(login.protocol, 47);
            assert_eq!(bytes, request);
        }
        other => panic!("{:?}", other),
    }
    let from = caller(&mut state, 5);
    match handle_client(&mut state, &settings, &cache, false, capture(request), &from) {
        ClientAction::Block(why) => assert_eq!(
            why,
            "Too many incoming connections to domain 'play.example' from IP '203.0.113.9' mitigating DoS attack, blocking ip for 300 secs"
        ),
        other => panic!("{:?}", other),
    }
    assert!(is_ip_blocked(&mut state, &CLIENT, 304));
}

#[test]
fn an_unknown_state_closes_the_connection() {
    let mut state = ProxyState::new();
    let from = caller(&mut state, 5);
    let action = handle_client(
        &mut state,
        &settings(0, 0),
        &StatusCache::new(),
        false,
        capture(handshake("play.example", 47, 25565, 3)),
        &from,
    );
    assert!(matches!(action, ClientAction::Shutdown));
    assert_eq!(save_ip_status(&state).len(), 0);
}

#[test]
fn a_held_client_loses_nothing() {
    let mut state = ProxyState::new();
    let shake = handshake("play.example", 47, 25565, 2);
    let login_start = frame(&vec![0, 5, b'S', b't', b'e', b'v', b'e']);
    let mut sent = shake.clone();
    sent.extend_from_slice(&login_start);
    let from = caller(&mut state, 5);
    let action = handle_client(
        &mut state,
        &settings(0, 0),
        &StatusCache::new(),
        true,
        capture(sent.clone()),
        &from,
    );
    let (login, session) = match action {
        ClientAction::Hold(login, session, again) => {
            assert_eq!(session.captured, shake);
            assert_eq!(again, login_start);
            (login, session)
        }
        other => panic!("{:?}", other),
    };
    let packet = LimboEvent::Packet(vec![0, 5, b'S', b't', b'e', b'v', b'e']);
    let (login, session) = match verify_with_limbo(login, session, packet) {
        ClientAction::Hold(login, session, again) => {
            assert!(again.is_empty());
            assert!(session.logged_in);
            (login, session)
        }
        other => panic!("{:?}", other),
    };
    match verify_with_limbo(login, session, LimboEvent::TimeOver) {
        ClientAction::Dial(_, bytes) => assert_eq!(bytes, sent),
        other => panic!("{:?}", other),
    }
}

#[test]
fn a_client_fails_while_it_is_held() {
    let fresh = || LimboSession { captured: vec![1], logged_in: false };
    assert!(matches!(
        limbo_step(fresh(), LimboEvent::TimeOver),
        LimboStep::Fail(LimboError::TimedOut)
    ));
    assert!(matches!(
        wait_for_login_start(fresh(), LimboEvent::Packet(vec![])),
        LimboStep::Fail(LimboError::BadPacket(ReadError::UnexpectedEof))
    ));
    assert!(matches!(
        hold_connection(fresh(), LimboEvent::StreamFailed),
        LimboStep::Fail(LimboError::StreamFailed)
    ));
    match wait_for_login_start(fresh(), LimboEvent::Packet(vec![2, 9])) {
        LimboStep::Wait(next) => {
            assert_eq!(next.captured, vec![1, 2, 2, 9]);
            assert!(!next.logged_in);
        }
        other => panic!("{:?}", other),
    }
    assert_eq!(
        LimboError::TimedOut.message(),
        "Timed out waiting for login start during limbo verification"
    );
    assert_eq!(LimboError::BadPacket(ReadError::VarIntTooLong).message(), "VarInt too long");
}

#[test]
fn packets_in_limbo() {
    assert_eq!(encode_varint(300), vec![0xac, 0x02]);
    let mut out = vec![7];
    append_raw_packet(&mut out, &[1, 2]);
    assert_eq!(out, vec![7, 2, 1, 2]);
    assert_eq!(read_packet_id(&[0xac, 0x02]), Ok(300));
    assert_eq!(read_packet_id(&[0xff, 0xff, 0xff, 0xff, 0x0f]), Ok(-1));
    assert_eq!(read_packet_id(&[]), Err(ReadError::UnexpectedEof));
    let (session, again) = verify_client_stream(capture(vec![1, 0, 5, 6]));
    assert_eq!(session.captured, vec![1, 0]);
    assert_eq!(again, vec![5, 6]);
}

#[test]
fn bytes_are_read_again_before_the_stream() {
    let mut replay = ReplayBuffer::new(vec![1, 2, 3]);
    assert_eq!(replay.read_again(2), vec![1, 2]);
    assert_eq!(replay.read_again(2), vec![3]);
    assert_eq!(replay.read_again(2), Vec::<u8>::new());
}

fn socket(d: u8, port: u16) -> SocketAddr {
    SocketAddr::new(IpAddr::V4(Ipv4Addr { a: 192, b: 0, c: 2, d }), port)
}

const HEADER: [u8; 28] = [
    0x0d, 0x0a, 0x0d, 0x0a, 0x00, 0x0d, 0x0a, 0x51, 0x55, 0x49, 0x54, 0x0a, 0x21, 0x11, 0x00, 0x0c,
    192, 0, 2, 1, 192, 0, 2, 2, 0x12, 0x34, 0x63, 0xdd,
];

#[test]
fn the_proxy_header_names_both_ends() {
    let (src, dst) = (socket(1, 0x1234), socket(2, 25565));
    assert_eq!(encode_proxy_protocol_v2_header(&src, &dst), HEADER.to_vec());
    assert_eq!(build_proxy_protocol_header(&src, &dst), HEADER.to_vec());
    let mut expected = HEADER.to_vec();
    expected.extend_from_slice(&[9, 8]);
    assert_eq!(encapsulate_with_proxy_protocol(&src, &dst, &[9, 8]), expected);
}

#[test]
fn the_proxy_header_can_be_parsed() {
    let bytes = encode_proxy_protocol_v2_header(&socket(1, 0x1234), &socket(2, 25565));
    let header = proxy_protocol::parse(&mut &bytes[..]).unwrap();
    let again = proxy_protocol::encode(header).unwrap();
    assert_eq!(again.to_vec(), HEADER.to_vec());
}

#[test]
fn a_server_first_learns_who_the_client_is() {
    let mut state = ProxyState::new();
    let (src, dst) = (socket(1, 0x1234), socket(2, 25565));
    let first = server_reached(&mut state, &src, Some((src, dst)), &vec![5], 1).unwrap();
    assert_eq!(&first[..28], &HEADER[..]);
    assert_eq!(&first[28..], &[5]);
    promote_active(&mut state, u64::MAX);
    assert_eq!(save_ip_status(&state)[0].ip, Some(src.ip));
    assert_eq!(server_reached(&mut state, &src, None, &vec![5], 1), None);
}

#[test]
fn servers_are_asked_for_their_status() {
    assert_eq!(build_status_request_packet(), vec![1, 0]);
    let ip = Ipv4Addr { a: 192, b: 0, c: 2, d: 2 };
    let request = ping_target("play", &socket(1, 0x1234), ip, 25565, 754);
    let mut expected = HEADER.to_vec();
    expected.extend_from_slice(&build_handshake_packet("play", 754, 25565));
    expected.extend_from_slice(&[1, 0]);
    assert_eq!(request, expected);
}

#[test]
fn status_responses_are_read() {
    let packet = send_status_response("{}", 5).unwrap();
    assert_eq!(packet, vec![4, 0, 2, b'{', b'}']);
    assert_eq!(missing_bytes(&[]), 1);
    assert_eq!(missing_bytes(&packet[..2]), 3);
    assert_eq!(missing_bytes(&packet), 0);
    assert_eq!(read_status_response(&packet).unwrap(), "{}");
    assert_eq!(read_status_response(&packet[..3]), Err(ReadError::UnexpectedEof));
    assert_eq!(read_status_response(&[2, 1, 0]), Err(ReadError::WrongPacketId));
    assert_eq!(read_status_response(&[3, 0, 1, 0xff]), Err(ReadError::InvalidUtf8(0, Some(1))));
    assert_eq!(read_status_response(&[2, 0, 9]), Err(ReadError::UnexpectedEof));
    assert_eq!(missing_bytes(&[0x80; 6]), 0);
    assert_eq!(read_status_response(&[0x80; 6]), Err(ReadError::VarIntTooLong));
}

#[test]
fn bytes_that_come_later_change_no_length() {
    let mut bytes = vec![0xac, 0x02];
    assert_eq!(try_parse_packet_header(&bytes), Ok(Some((300, 2))));
    bytes.extend_from_slice(&[0xff; 9]);
    assert_eq!(try_parse_packet_header(&bytes), Ok(Some((300, 2))));
    let mut packet = send_status_response("[1]", 5).unwrap();
    packet.extend_from_slice(&[0xff; 9]);
    assert_eq!(missing_bytes(&packet), 0);
    assert_eq!(read_status_response(&packet).unwrap(), "[1]");
}

#[test]
fn clients_do_not_affect_each_other() {
    let mut state = ProxyState::new();
    let settings = settings(1, 1);
    let cache = StatusCache::new();
    let neighbour = IpAddr::V4(Ipv4Addr { a: 203, b: 0, c: 113, d: 10 });
    let from = caller(&mut state, 5);
    handle_client(&mut state, &settings, &cache, false, capture(vec![1, 0]), &from);
    assert!(is_ip_blocked(&mut state, &CLIENT, 5));
    assert!(!is_ip_blocked(&mut state, &neighbour, 5));
    let admitted = let_in(&mut state, neighbour, 5);
    let other = Caller { admitted, ip_text: "203.0.113.10".to_string(), now: 5 };
    let request = capture(handshake("play.example", 47, 25565, 2));
    let action = handle_client(&mut state, &settings, &cache, false, request, &other);
    assert!(matches!(action, ClientAction::Dial(_, _)));
    assert!(is_ip_blocked(&mut state, &CLIENT, 5));
}

#[test]
fn a_blocked_client_is_turned_away() {
    let mut state = ProxyState::new();
    let_in(&mut state, CLIENT, 1000);
    block_ip(&mut state, &CLIENT, 1000);
    assert_eq!(greet(&mut state, &CLIENT, 1000), GreetDecision::Shutdown);
    assert_eq!(greet(&mut state, &CLIENT, 1299), GreetDecision::Shutdown);
    let rows = save_ip_status(&state);
    assert_eq!((rows.len(), rows[0].status, rows[0].expiry), (1, 0, Some(1300)));
    let_in(&mut state, CLIENT, 1300);
    assert_eq!(save_ip_status(&state).len(), 0);
}

#[test]
fn a_client_that_was_let_in_is_still_dealt_with() {
    let settings = settings(1, 1);
    let cache = StatusCache::new();
    let mut state = ProxyState::new();
    let from = caller(&mut state, 1000);
    block_ip(&mut state, &CLIENT, 1000);
    let request = capture(handshake("play.example", 47, 25565, 1));
    let action = handle_client(&mut state, &settings, &cache, true, request, &from);
    assert!(matches!(action, ClientAction::SendStatus(_)));
    assert!(is_ip_blocked(&mut state, &CLIENT, 1299));

    let mut state = ProxyState::new();
    let from = Caller { now: 1100, ..caller(&mut state, 1000) };
    block_ip(&mut state, &CLIENT, 1000);
    let action = handle_client(&mut state, &settings, &cache, true, capture(vec![1, 0]), &from);
    assert!(matches!(action, ClientAction::Block(_)));
    assert!(is_ip_blocked(&mut state, &CLIENT, 1399));
}

#[test]
fn a_spent_block_is_forgotten_on_greeting() {
    let mut state = ProxyState::new();
    block_ip(&mut state, &CLIENT, 1000);
    let_in(&mut state, CLIENT, 1300);
    assert_eq!(save_ip_status(&state).len(), 0);
}

#[test]
fn as_much_is_read_as_is_missing() {
    assert_eq!(awaited(&capture_handshake(vec![]).unwrap()), 1);
    assert_eq!(awaited(&capture_handshake(vec![10, 1]).unwrap()), 9);
    assert_eq!(awaited(&capture_handshake(vec![0x80, 0x80, 0x40]).unwrap()), READ_CHUNK);
    assert_eq!(awaited(&capture_handshake(vec![0]).unwrap()), 0);
}

#[test]
fn the_holding_time_begins_with_the_login() {
    let session = |logged_in| LimboSession { captured: vec![], logged_in };
    assert_eq!(timer_after(false, &session(false)), LimboTimer::Login);
    assert_eq!(timer_after(false, &session(true)), LimboTimer::HoldBegins);
    assert_eq!(timer_after(true, &session(true)), LimboTimer::Hold);
}
