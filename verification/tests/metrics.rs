use mineshield_proxy::addr::{IpAddr, SocketAddr};
use mineshield_proxy::metrics::{
    all_shown, families_reply, metrics_reply, record_block, record_bytes, record_connection_attempt, record_connection_closed,
    record_connection_established, record_connection_failure, record_handshake_failure,
    record_ip_block, record_ping_request, serve, spawn_metrics_server, Metrics, Registration,
};

fn line(text: &str, start: &str) -> Option<String> {
    text.lines().find(|line| line.starts_with(start)).map(|line| line.to_string())
}

#[test]
fn what_is_counted_is_shown() {
    let mut metrics = Metrics::new();
    let registrations = metrics.register();
    assert!(all_shown(&registrations));
    let names: Vec<&str> = registrations.iter().map(|r| r.name.as_str()).collect();
    assert_eq!(
        names,
        vec![
            "mineshield_proxy_block_events_total",
            "mineshield_proxy_handshake_failures_total",
            "mineshield_proxy_connection_failures_total",
            "mineshield_proxy_connection_attempts_total",
            "mineshield_proxy_connections_established_total",
            "mineshield_proxy_connections_closed_total",
            "mineshield_proxy_ping_requests_total",
            "mineshield_proxy_active_connections",
            "mineshield_proxy_bytes_transferred_total",
            "mineshield_proxy_ip_blocks_total",
        ]
    );
    record_block(&mut metrics, "ping");
    record_block(&mut metrics, "ping");
    record_block(&mut metrics, "packets");
    record_handshake_failure(&mut metrics, "decode");
    record_connection_failure(&mut metrics, "timeout");
    for _ in 0..3 {
        record_connection_attempt(&mut metrics);
    }
    for _ in 0..5 {
        record_connection_established(&mut metrics);
    }
    for _ in 0..2 {
        record_connection_closed(&mut metrics);
    }
    record_ping_request(&mut metrics);
    record_bytes(&mut metrics, "up", 0);
    record_bytes(&mut metrics, "down", 100);
    record_bytes(&mut metrics, "down", 23);
    record_ip_block(&mut metrics);

    let reply = serve("GET", "/metrics");
    assert_eq!(reply.status, 200);
    assert_eq!(reply.content_type, Some("text/plain; version=0.0.4"));
    let text = String::from_utf8(reply.body).unwrap();
    for (start, value) in [
        ("mineshield_proxy_block_events_total{reason=\"ping\"}", "2"),
        ("mineshield_proxy_block_events_total{reason=\"packets\"}", "1"),
        ("mineshield_proxy_handshake_failures_total{reason=\"decode\"}", "1"),
        ("mineshield_proxy_connection_failures_total{reason=\"timeout\"}", "1"),
        ("mineshield_proxy_connection_attempts_total", "3"),
        ("mineshield_proxy_connections_established_total", "5"),
        ("mineshield_proxy_connections_closed_total", "2"),
        ("mineshield_proxy_ping_requests_total", "1"),
        ("mineshield_proxy_active_connections", "3"),
        ("mineshield_proxy_bytes_transferred_total{direction=\"down\"}", "123"),
        ("mineshield_proxy_ip_blocks_total", "1"),
    ] {
        assert_eq!(line(&text, start), Some(format!("{} {}", start, value)));
    }
    assert_eq!(line(&text, "mineshield_proxy_bytes_transferred_total{direction=\"up\"}"), None);
    assert!(text.contains(
        "# HELP mineshield_proxy_ip_blocks_total Total number of times the proxy has blocked an IP address."
    ));
    assert!(text.contains(
        "# HELP mineshield_proxy_bytes_transferred_total Total number of bytes forwarded through the proxy."
    ));
    assert!(text.contains(
        "# HELP mineshield_proxy_active_connections Current number of proxied connections actively being forwarded."
    ));
    let again = Metrics::new().register();
    assert_eq!(again.len(), 10);
    assert!(again.iter().all(|r| !r.shown));
    assert!(!all_shown(&again));
}

#[test]
fn a_gauge_may_go_below_zero() {
    let mut metrics = Metrics::new();
    record_connection_closed(&mut metrics);
    record_connection_established(&mut metrics);
}

#[test]
fn the_endpoint_answers() {
    let health = serve("GET", "/healthz");
    assert_eq!((health.status, health.content_type, &health.body[..]), (200, None, &b"ok"[..]));
    let head = serve("HEAD", "/metrics");
    assert_eq!((head.status, head.body.len()), (200, 0));
    for (method, path) in [("POST", "/metrics"), ("GET", "/"), ("HEAD", "/healthz"), ("get", "/metrics")] {
        let reply = serve(method, path);
        assert_eq!((reply.status, &reply.body[..]), (404, &b"not found"[..]));
    }
}

#[test]
fn numbers_that_cannot_be_written_out() {
    let reply = metrics_reply(None);
    assert_eq!((reply.status, reply.content_type), (500, None));
    assert_eq!(&reply.body[..], b"unable to encode metrics");
    let reply = metrics_reply(Some(vec![1, 2]));
    assert_eq!((reply.status, &reply.body[..]), (200, &[1u8, 2][..]));
}

#[test]
fn the_endpoint_is_opened_once() {
    let mut started = false;
    let addr = SocketAddr::new(IpAddr::V6(0), 9100);
    assert_eq!(spawn_metrics_server(&mut started, addr), Some(addr));
    assert_eq!(spawn_metrics_server(&mut started, addr), None);
    assert!(started);
}

#[test]
fn one_counter_that_is_not_shown_is_enough() {
    let one = |shown| Registration { name: "a".to_string(), shown };
    assert!(all_shown(&vec![]));
    assert!(all_shown(&vec![one(true), one(true)]));
    assert!(!all_shown(&vec![one(true), one(false), one(true)]));
}

#[test]
fn what_is_registered_is_written_out() {
    let mut sample = prometheus::proto::Counter::default();
    sample.set_value(7.0);
    let mut metric = prometheus::proto::Metric::default();
    metric.set_counter(sample);
    let mut family = prometheus::proto::MetricFamily::default();
    family.set_name("kept".to_string());
    family.set_field_type(prometheus::proto::MetricType::COUNTER);
    family.set_metric(vec![metric]);
    let reply = families_reply(&vec![family.clone()]);
    assert_eq!((reply.status, reply.content_type), (200, Some("text/plain; version=0.0.4")));
    assert_eq!(String::from_utf8(reply.body).unwrap(), "# TYPE kept counter\nkept 7\n");

    assert_eq!(families_reply(&vec![]).body.len(), 0);
    let empty = prometheus::proto::MetricFamily::default();
    assert_eq!(families_reply(&vec![family.clone(), empty]).status, 500);
    family.set_field_type(prometheus::proto::MetricType::UNTYPED);
    assert_eq!(families_reply(&vec![family]).status, 500);
}
