use mineshield_proxy::addr::{ipv4_literal, IpAddr, Ipv4Addr, SocketAddr};
use mineshield_proxy::config_loader::RedirectionConfig;
use mineshield_proxy::forwarding::{
    check_packet_limit, forward_step, prune_packet_counts, Direction, ForwardAction, ForwardEvent,
    PacketCounts,
};
use mineshield_proxy::proxy::{
    begin_connection, block_ip, check_connection_limit, check_ping_limit, finish_connection,
    is_ip_blocked, load_ip_status, promote_active, prune_counters, purge_blocked_ips, record_ping,
    save_ip_status, start, tick, IpInfo, IpRow, ProxyState,
};
use mineshield_proxy::window::{count_event, still_fresh};

fn ip(d: u8) -> IpAddr {
    IpAddr::V4(Ipv4Addr { a: 203, b: 0, c: 113, d })
}

fn config(connections: usize, packets: usize, pings: usize) -> RedirectionConfig {
    RedirectionConfig {
        ip: Ipv4Addr { a: 10, b: 0, c: 0, d: 1 },
        port: 25577,
        max_connections_per_second: connections,
        max_packet_per_second: packets,
        max_ping_response_per_second: pings,
    }
}

fn row(state: &ProxyState, ip: IpAddr) -> Option<IpRow> {
    save_ip_status(state).into_iter().find(|row| row.ip == Some(ip))
}

fn standing(state: &ProxyState, ip: IpAddr) -> Option<i64> {
    row(state, ip).map(|row| row.status)
}

#[test]
fn a_second_admits_up_to_the_limit() {
    let mut entry = (50, 0);
    for expected in [true, true, true, false, false] {
        let (admitted, next) = count_event(entry, 50, 3);
        assert_eq!(admitted, expected);
        entry = next;
    }
    assert_eq!(entry, (50, 3));
    assert_eq!(count_event(entry, 51, 3), (true, (51, 1)));
    assert_eq!(count_event(entry, 51, 0), (false, (51, 0)));
}

#[test]
fn counters_stay_fresh_for_one_more_second() {
    assert!(still_fresh(10, 10));
    assert!(still_fresh(10, 11));
    assert!(!still_fresh(10, 12));
    assert!(still_fresh(10, 9));
}

#[test]
fn a_block_lasts_300_seconds() {
    let mut state = ProxyState::new();
    block_ip(&mut state, &ip(1), 1000);
    assert_eq!(
        row(&state, ip(1)),
        Some(IpRow { ip: Some(ip(1)), status: 0, expiry: Some(1300) })
    );
    assert!(is_ip_blocked(&mut state, &ip(1), 1000));
    assert!(is_ip_blocked(&mut state, &ip(1), 1299));
    assert!(!is_ip_blocked(&mut state, &ip(2), 1000));
    assert!(!is_ip_blocked(&mut state, &ip(1), 1300));
    assert_eq!(row(&state, ip(1)), None);
}

#[test]
fn a_block_without_an_end_does_not_hold() {
    let mut state = ProxyState::new();
    load_ip_status(&mut state, &vec![IpRow { ip: Some(ip(1)), status: 0, expiry: None }]);
    assert!(!is_ip_blocked(&mut state, &ip(1), 0));
    assert_eq!(row(&state, ip(1)), None);
}

#[test]
fn purging_forgets_only_blocks_that_have_run_out() {
    let mut state = ProxyState::new();
    block_ip(&mut state, &ip(1), 100);
    block_ip(&mut state, &ip(2), 200);
    record_ping(&mut state, &ip(3));
    purge_blocked_ips(&mut state, 400);
    assert_eq!(standing(&state, ip(1)), None);
    assert_eq!(standing(&state, ip(2)), Some(0));
    assert_eq!(standing(&state, ip(3)), Some(2));
    assert!(is_ip_blocked(&mut state, &ip(2), 400));
}

#[test]
fn pinging_raises_strangers_only() {
    let mut state = ProxyState::new();
    record_ping(&mut state, &ip(1));
    assert_eq!(standing(&state, ip(1)), Some(2));
    load_ip_status(
        &mut state,
        &vec![
            IpRow { ip: Some(ip(2)), status: 1, expiry: Some(9) },
            IpRow { ip: Some(ip(3)), status: 4, expiry: None },
        ],
    );
    block_ip(&mut state, &ip(4), 10);
    for d in 2..5 {
        record_ping(&mut state, &ip(d));
    }
    assert_eq!(row(&state, ip(2)), Some(IpRow { ip: Some(ip(2)), status: 2, expiry: None }));
    assert_eq!(standing(&state, ip(3)), Some(4));
    assert_eq!(standing(&state, ip(4)), Some(0));
}

#[test]
fn ping_limits_count_by_domain_and_source() {
    let mut state = ProxyState::new();
    let cfg = config(0, 0, 2);
    assert!(check_ping_limit(&mut state, "a", &ip(1), &cfg, 7));
    assert!(check_ping_limit(&mut state, "a", &ip(1), &cfg, 7));
    assert!(!check_ping_limit(&mut state, "a", &ip(1), &cfg, 7));
    assert!(check_ping_limit(&mut state, "b", &ip(1), &cfg, 7));
    assert!(check_ping_limit(&mut state, "a", &ip(2), &cfg, 7));
    assert!(check_ping_limit(&mut state, "a", &ip(1), &cfg, 8));
    let unlimited = config(0, 0, 0);
    for _ in 0..100 {
        assert!(check_ping_limit(&mut state, "a", &ip(1), &unlimited, 8));
    }
}

#[test]
fn a_source_connects_no_more_often_than_its_limit() {
    for status in 1..5 {
        let mut state = ProxyState::new();
        let cfg = config(2, 0, 0);
        load_ip_status(&mut state, &vec![IpRow { ip: Some(ip(1)), status, expiry: None }]);
        assert!(check_connection_limit(&mut state, "a", &ip(1), &cfg, 7));
        assert!(check_connection_limit(&mut state, "a", &ip(1), &cfg, 7));
        assert!(!check_connection_limit(&mut state, "a", &ip(1), &cfg, 7));
        assert!(check_connection_limit(&mut state, "b", &ip(1), &cfg, 7));
        assert!(check_connection_limit(&mut state, "a", &ip(2), &cfg, 7));
        assert!(!check_connection_limit(&mut state, "a", &ip(1), &cfg, 7));
        assert!(check_connection_limit(&mut state, "a", &ip(1), &cfg, 8));
        assert!(check_connection_limit(&mut state, "a", &ip(1), &config(0, 0, 0), 7));
    }
}

#[test]
fn a_better_standing_opens_no_further_connections() {
    let mut state = ProxyState::new();
    let cfg = config(2, 0, 0);
    assert!(check_connection_limit(&mut state, "a", &ip(1), &cfg, 7));
    record_ping(&mut state, &ip(1));
    assert!(check_connection_limit(&mut state, "a", &ip(1), &cfg, 7));
    for status in [2, 3, 4, 1] {
        load_ip_status(&mut state, &vec![IpRow { ip: Some(ip(1)), status, expiry: None }]);
        assert!(!check_connection_limit(&mut state, "a", &ip(1), &cfg, 7));
    }
}

#[test]
fn pruning_changes_no_decision() {
    let mut state = ProxyState::new();
    let cfg = config(1, 0, 1);
    assert!(check_ping_limit(&mut state, "a", &ip(1), &cfg, 7));
    assert!(check_connection_limit(&mut state, "a", &ip(1), &cfg, 7));
    prune_counters(&mut state, 7);
    assert!(!check_ping_limit(&mut state, "a", &ip(1), &cfg, 7));
    assert!(!check_connection_limit(&mut state, "a", &ip(1), &cfg, 7));
    prune_counters(&mut state, 9);
    assert!(check_ping_limit(&mut state, "a", &ip(1), &cfg, 9));
    assert!(check_connection_limit(&mut state, "a", &ip(1), &cfg, 9));
}

#[test]
fn playing_earns_trust() {
    const SECOND: u64 = 1_000_000_000;
    let mut state = ProxyState::new();
    let client = SocketAddr::new(ip(1), 40000);
    begin_connection(&mut state, &client, 5 * SECOND);
    promote_active(&mut state, 5 * SECOND + 120 * SECOND - 1);
    assert_eq!(standing(&state, ip(1)), None);
    promote_active(&mut state, 125 * SECOND);
    assert_eq!(standing(&state, ip(1)), Some(3));
    promote_active(&mut state, 365 * SECOND - 1);
    assert_eq!(standing(&state, ip(1)), Some(3));
    tick(&mut state, 365, 365 * SECOND);
    assert_eq!(standing(&state, ip(1)), Some(4));
    finish_connection(&mut state, &client);
    block_ip(&mut state, &ip(1), 400);
    promote_active(&mut state, 4000 * SECOND);
    assert_eq!(standing(&state, ip(1)), Some(0));
}

#[test]
fn a_connection_that_began_later_earns_nothing() {
    let mut state = ProxyState::new();
    begin_connection(&mut state, &SocketAddr::new(ip(1), 1), u64::MAX);
    promote_active(&mut state, 0);
    assert_eq!(save_ip_status(&state).len(), 0);
}

#[test]
fn standings_survive_a_restart() {
    let mut state = ProxyState::new();
    block_ip(&mut state, &ip(1), 1000);
    record_ping(&mut state, &ip(2));
    let six = IpAddr::V6(0x2001_0db8_0000_0000_0000_0000_0000_0001);
    record_ping(&mut state, &six);
    load_ip_status(
        &mut state,
        &vec![IpRow { ip: Some(ip(3)), status: 1, expiry: Some(-1) }],
    );
    let rows = save_ip_status(&state);
    assert_eq!(rows.len(), 4);

    let (restarted, loaded) = start(&rows, 1100);
    assert_eq!(loaded, 4);
    for address in [ip(1), ip(2), ip(3), six] {
        assert_eq!(row(&restarted, address), row(&state, address));
    }
    let (later, loaded) = start(&rows, 1300);
    assert_eq!(loaded, 4);
    assert_eq!(row(&later, ip(1)), None);
    assert_eq!(row(&later, ip(2)), row(&state, ip(2)));
}

#[test]
fn rows_without_an_address_are_passed_over() {
    let mut state = ProxyState::new();
    let rows = vec![
        IpRow { ip: None, status: 4, expiry: None },
        IpRow { ip: Some(ip(1)), status: 258, expiry: None },
        IpRow { ip: Some(ip(1)), status: 259, expiry: Some(7) },
    ];
    assert_eq!(load_ip_status(&mut state, &rows), 2);
    assert_eq!(row(&state, ip(1)), Some(IpRow { ip: Some(ip(1)), status: 3, expiry: Some(7) }));
    assert_eq!(IpInfo { status: 3, expiry: Some(7) }.status, 3);
}

#[test]
fn packets_are_counted_by_domain_and_source() {
    let mut counts = PacketCounts::new();
    let cfg = config(0, 2, 0);
    assert!(check_packet_limit(&mut counts, "a", &ip(1), &cfg, 7));
    assert!(check_packet_limit(&mut counts, "a", &ip(1), &cfg, 7));
    assert!(!check_packet_limit(&mut counts, "a", &ip(1), &cfg, 7));
    assert!(check_packet_limit(&mut counts, "b", &ip(1), &cfg, 7));
    assert!(check_packet_limit(&mut counts, "a", &ip(2), &cfg, 7));
    prune_packet_counts(&mut counts, 8);
    assert!(!check_packet_limit(&mut counts, "a", &ip(1), &cfg, 7));
    prune_packet_counts(&mut counts, 9);
    assert!(check_packet_limit(&mut counts, "a", &ip(1), &cfg, 7));
}

fn direction(client_to_server: bool) -> Direction {
    Direction {
        domain: "play".to_string(),
        cfg: config(0, 1, 0),
        src: SocketAddr::new(ip(1), 4),
        client_to_server,
    }
}

#[test]
fn a_client_that_sends_too_much_is_kicked_and_blocked() {
    let mut state = ProxyState::new();
    let mut counts = PacketCounts::new();
    let dir = direction(true);
    begin_connection(&mut state, &dir.src, 0);
    let first = forward_step(&mut state, &mut counts, &dir, ForwardEvent::Read(10), "203.0.113.1", 7);
    assert!(matches!(first, ForwardAction::Forward));
    match forward_step(&mut state, &mut counts, &dir, ForwardEvent::Read(10), "203.0.113.1", 7) {
        ForwardAction::Kick(why) => assert_eq!(
            why,
            "Too many packets to domain 'play' from IP '203.0.113.1' mitigating potential attack, blocking ip for 300 secs"
        ),
        other => panic!("{:?}", other),
    }
    assert!(is_ip_blocked(&mut state, &ip(1), 306));
    promote_active(&mut state, u64::MAX);
    assert_eq!(standing(&state, ip(1)), Some(0));
}

#[test]
fn what_the_server_sends_is_not_counted() {
    let mut state = ProxyState::new();
    let mut counts = PacketCounts::new();
    let dir = direction(false);
    for _ in 0..10 {
        let step = forward_step(&mut state, &mut counts, &dir, ForwardEvent::Read(1), "x", 7);
        assert!(matches!(step, ForwardAction::Forward));
    }
}

#[test]
fn forwarding_ends_with_the_stream() {
    for event in [ForwardEvent::Read(0), ForwardEvent::ReadFailed, ForwardEvent::WriteFailed] {
        let mut state = ProxyState::new();
        let mut counts = PacketCounts::new();
        let dir = direction(true);
        begin_connection(&mut state, &dir.src, 0);
        let step = forward_step(&mut state, &mut counts, &dir, event, "x", 7);
        assert!(matches!(step, ForwardAction::Stop));
        promote_active(&mut state, u64::MAX);
        assert_eq!(standing(&state, ip(1)), None);
    }
}

#[test]
fn dotted_decimal_addresses() {
    assert_eq!(ipv4_literal("127.0.0.1"), Some(Ipv4Addr { a: 127, b: 0, c: 0, d: 1 }));
    assert_eq!(ipv4_literal("255.255.255.255"), Some(Ipv4Addr { a: 255, b: 255, c: 255, d: 255 }));
    for text in ["", "1.2.3", "1.2.3.4.5", "01.2.3.4", "256.1.1.1", "1.2.3.4 ", "a.b.c.d", "1..2.3"] {
        assert_eq!(ipv4_literal(text), None, "{}", text);
    }
}

#[test]
fn address_keys_come_back() {
    for address in [ip(1), ip(255), IpAddr::V6(0), IpAddr::V6(u128::MAX)] {
        assert_eq!(IpAddr::from_table_key(address.table_key()), Some(address));
    }
    assert_ne!(
        IpAddr::V4(Ipv4Addr { a: 0, b: 0, c: 0, d: 1 }).table_key(),
        IpAddr::V6(1).table_key()
    );
}

#[test]
fn connections_are_told_apart_by_all_of_their_address() {
    let mut state = ProxyState::new();
    let near = IpAddr::V6(0xfe80_0000_0000_0000_0000_0000_0000_0001);
    let one = SocketAddr { ip: near, port: 9, flowinfo: 0, scope_id: 2 };
    let other = SocketAddr { scope_id: 3, ..one };
    begin_connection(&mut state, &one, 0);
    finish_connection(&mut state, &other);
    promote_active(&mut state, u64::MAX);
    assert_eq!(standing(&state, near), Some(4));
    assert_ne!(one.table_key(), SocketAddr { flowinfo: 1, ..one }.table_key());
}
