use mineshield_proxy::addr::{IpAddr, Ipv4Addr, SocketAddr};
use mineshield_proxy::config_loader;
use mineshield_proxy::config_loader::{
    LoadStep, OpenOutcome, PrometheusExporterConfig, RedirectionConfig, Settings,
};
use mineshield_proxy::pinger::background_pinger;
use mineshield_proxy::target::{lookup_host, split_target, Answer, TargetError};
use mineshield_proxy::update_service;
use mineshield_proxy::update_service::{
    try_register_connection, PreventTargetOverloadConfig, Service,
};

fn v4(a: u8, b: u8, c: u8, d: u8) -> Ipv4Addr {
    Ipv4Addr { a, b, c, d }
}

fn nothing() -> Answer {
    Ok(Vec::new())
}

#[test]
fn targets_are_taken_apart() {
    assert_eq!(split_target("host:80").unwrap(), ("host".to_string(), 80));
    assert_eq!(split_target(":+80").unwrap(), (String::new(), 80));
    assert!(matches!(split_target("host"), Err(TargetError::Format)));
    assert!(matches!(split_target("a:b:1"), Err(TargetError::Format)));
    assert!(matches!(split_target("host:70000"), Err(TargetError::Port)));
    assert!(matches!(split_target("host:"), Err(TargetError::Port)));
}

#[test]
fn only_names_are_looked_up() {
    assert_eq!(lookup_host("play.example:1"), Some("play.example".to_string()));
    assert_eq!(lookup_host("10.0.0.1:1"), None);
    assert_eq!(lookup_host("10.0.0.01:1"), Some("10.0.0.01".to_string()));
    assert_eq!(lookup_host("play.example:x"), None);
    assert_eq!(lookup_host("play.example"), None);
}

#[test]
fn a_spelled_out_target_needs_no_answer() {
    for answer in [nothing(), Err("no network".to_string()), Ok(vec![IpAddr::V6(1)])] {
        assert_eq!(
            config_loader::parse_target("10.1.2.3:25577", &answer),
            Ok((v4(10, 1, 2, 3), 25577))
        );
        assert_eq!(
            update_service::parse_target("10.1.2.3:25577", &answer),
            Ok((v4(10, 1, 2, 3), 25577))
        );
    }
}

#[test]
fn a_name_stands_for_its_first_ipv4_address() {
    let answer: Answer =
        Ok(vec![IpAddr::V6(7), IpAddr::V4(v4(1, 2, 3, 4)), IpAddr::V4(v4(5, 6, 7, 8))]);
    assert_eq!(config_loader::parse_target("x.y:9", &answer), Ok((v4(1, 2, 3, 4), 9)));
    assert_eq!(config_loader::convert_to_ipv4("x.y", &answer), Ok(v4(1, 2, 3, 4)));
    assert_eq!(update_service::convert_to_ipv4("x.y", &answer), Ok(v4(1, 2, 3, 4)));
}

#[test]
fn target_errors_in_words() {
    let failed: Answer = Err("timed out".to_string());
    let six: Answer = Ok(vec![IpAddr::V6(1)]);
    let text = |target: &str, answer: &Answer| config_loader::parse_target(target, answer).unwrap_err();
    assert_eq!(text("x", &failed), "Invalid target format (expected host:port)");
    assert_eq!(text("x:y", &failed), "Invalid port in target");
    assert_eq!(text("x:1", &failed), "Failed to resolve 'x': timed out");
    assert_eq!(text("x:1", &six), "No IPv4 address found for 'x'");
    let text = |target: &str, answer: &Answer| update_service::parse_target(target, answer).unwrap_err();
    assert_eq!(text("x", &failed), "Invalid target format");
    assert_eq!(text("x:y", &failed), "Invalid port");
    assert_eq!(text("x:1", &failed), "Failed to resolve domain name: timed out");
    assert_eq!(text("x:1", &six), "No IPv4 address found for the domain");
}

#[test]
fn the_configuration_is_opened_and_created() {
    assert!(matches!(config_loader::update_proxies(), LoadStep::Open(path) if path == "config.yml"));
    assert!(matches!(
        config_loader::update_proxies_from_config("other.yml"),
        LoadStep::Open(path) if path == "other.yml"
    ));
    assert!(matches!(
        config_loader::config_opened("p", OpenOutcome::Read("text".to_string())),
        LoadStep::Parse(text) if text == "text"
    ));
    match config_loader::config_opened("p", OpenOutcome::NotFound) {
        LoadStep::Create(path, text) => {
            assert_eq!(path, "p");
            assert_eq!(text, config_loader::default_config());
        }
        other => panic!("{:?}", other),
    }
    match config_loader::config_opened("p", OpenOutcome::Failed("denied".to_string())) {
        LoadStep::Abort(why) => assert_eq!(why, "Error opening config file: denied"),
        other => panic!("{:?}", other),
    }
    match config_loader::config_opened("p", OpenOutcome::Unreadable("bad".to_string())) {
        LoadStep::Abort(why) => assert_eq!(why, "Failed to read config file: bad"),
        other => panic!("{:?}", other),
    }
}

#[test]
fn the_default_configuration_is_yaml() {
    let value: serde_yaml::Value = serde_yaml::from_str(&config_loader::default_config()).unwrap();
    assert_eq!(value["bind-address"], "127.0.0.1:25565");
    assert_eq!(value["proxy_threads"], 4);
    assert_eq!(value["ntfy_server"], "");
    assert_eq!(value["ntfy_topic"], "");
    assert_eq!(value["prometheus_exporter"]["enabled"], false);
    assert_eq!(value["prometheus_exporter"]["bind-address"], "0.0.0.0:9100");
    assert_eq!(value["debug"], false);
    assert_eq!(value["redirections"][0]["incoming_domain"], "localhost");
    assert_eq!(value["redirections"][0]["target"], "127.0.0.1:25577");
    assert_eq!(value["redirections"][0]["max_packet_per_second"], 0);
    assert_eq!(value["redirections"][1]["incoming_domain"], "example.com");
    assert_eq!(value["redirections"][1]["target"], "target.local:25678");
    assert_eq!(value["redirections"][1]["max_ping_response_per_second"], 100);
    assert_eq!(value["redirections"][1]["max_connections_per_second"], 5);

    let value: serde_yaml::Value = serde_yaml::from_str(&update_service::default_config()).unwrap();
    assert_eq!(value["bind-address"], "0.0.0.0:25565");
    assert_eq!(value["prevent_target_overload"]["enabled"], false);
    assert_eq!(value["prevent_target_overload"]["rate_limit_per_target"], 10);
    assert_eq!(value["redirections"][0]["target"], "192.168.1.100:8080");
    assert_eq!(value["redirections"][1]["incoming_domain"], "test.com");
}

#[test]
fn defaults() {
    assert_eq!(config_loader::default_proxy_threads(), 4);
    assert_eq!(update_service::default_proxy_threads(), 4);
    assert_eq!(update_service::default_rate_limit(), 10);
    let exporter = PrometheusExporterConfig::default();
    assert!(!exporter.enabled);
    assert_eq!(exporter.bind_address, "0.0.0.0:9100");
    assert_eq!(
        PreventTargetOverloadConfig::default(),
        PreventTargetOverloadConfig { enabled: false, rate_limit_per_target: 0 }
    );
    let settings = Settings::new();
    assert_eq!(settings.proxy_threads, 4);
    assert_eq!(settings.bind_address, SocketAddr::new(IpAddr::V4(v4(0, 0, 0, 0)), 25565));
    assert_eq!(settings.exporter_address.port, 9100);
    assert_eq!(settings.ntfy_url, "");
    assert_eq!(update_service::default_bind_address(), settings.bind_address);
    assert!(config_loader::resolve(&settings, "localhost").is_none());
}

#[test]
fn the_ntfy_url_needs_both_parts() {
    assert_eq!(config_loader::ntfy_url(" ntfy.sh ", "\ttopic\n"), "ntfy.sh/topic");
    assert_eq!(config_loader::ntfy_url("  ", "topic"), "");
    assert_eq!(config_loader::ntfy_url("ntfy.sh", ""), "");
}

fn redirection(domain: &str, target: &str, limit: usize) -> config_loader::Redirection {
    config_loader::Redirection {
        incoming_domain: domain.to_string(),
        target: target.to_string(),
        max_connections_per_second: limit,
        max_packet_per_second: limit + 1,
        max_ping_response_per_second: limit + 2,
    }
}

#[test]
fn a_configuration_is_put_into_effect() {
    let mut settings = Settings::new();
    let config = config_loader::Config {
        bind_address: "ignored".to_string(),
        proxy_threads: 9,
        ntfy_server: "ntfy.sh".to_string(),
        ntfy_topic: "t".to_string(),
        prometheus_exporter: PrometheusExporterConfig { enabled: true, bind_address: String::new() },
        debug: true,
        redirections: vec![
            redirection("One.Example", "10.0.0.1:1", 1),
            redirection("two.example", "two.local:2", 2),
            redirection("broken", "nowhere", 3),
            redirection("ONE.example", "10.0.0.3:3", 4),
            redirection("one.EXAMPLE", "10.0.0.4:99999", 5),
        ],
    };
    let answers = vec![
        nothing(),
        Ok(vec![IpAddr::V4(v4(10, 0, 0, 2))]),
        nothing(),
        nothing(),
        nothing(),
    ];
    let bind = SocketAddr::new(IpAddr::V6(1), 7);
    let exporter = SocketAddr::new(IpAddr::V6(2), 8);
    let complaints =
        config_loader::apply_config(&mut settings, &config, bind, exporter, &answers);
    assert_eq!(
        complaints,
        vec![
            "Error parsing target 'nowhere': Invalid target format (expected host:port)".to_string(),
            "Error parsing target '10.0.0.4:99999': Invalid port in target".to_string(),
        ]
    );
    assert_eq!(settings.bind_address, bind);
    assert_eq!(settings.exporter_address, exporter);
    assert_eq!(settings.proxy_threads, 9);
    assert_eq!(settings.ntfy_url, "ntfy.sh/t");
    assert!(settings.exporter_enabled);
    assert!(settings.debug);
    assert_eq!(
        config_loader::resolve(&settings, "one.example"),
        Some(RedirectionConfig {
            ip: v4(10, 0, 0, 3),
            port: 3,
            max_connections_per_second: 4,
            max_packet_per_second: 5,
            max_ping_response_per_second: 6,
        })
    );
    assert_eq!(config_loader::resolve(&settings, "two.example").unwrap().ip, v4(10, 0, 0, 2));
    assert_eq!(config_loader::resolve(&settings, "One.Example"), None);
    assert_eq!(config_loader::resolve(&settings, "broken"), None);

    let mut jobs: Vec<(String, u16, u32)> = background_pinger(&settings)
        .into_iter()
        .map(|job| (job.domain, job.port, job.protocol_version))
        .collect();
    jobs.sort();
    assert_eq!(
        jobs,
        vec![("one.example".to_string(), 3, 754), ("two.example".to_string(), 2, 754)]
    );

    let emptied = config_loader::Config { redirections: vec![], ..config };
    config_loader::apply_config(&mut settings, &emptied, bind, exporter, &vec![]);
    assert_eq!(config_loader::resolve(&settings, "one.example"), None);
    assert_eq!(settings.redirections.items().len(), 0);
}

fn service(enabled: bool, limit: usize) -> Service {
    let mut service = Service::new();
    let config = update_service::Config {
        bind_address: String::new(),
        prevent_target_overload: PreventTargetOverloadConfig {
            enabled,
            rate_limit_per_target: limit,
        },
        proxy_threads: 2,
        redirections: vec![
            update_service::Redirection {
                incoming_domain: "Example.com".to_string(),
                target: "192.168.1.100:8080".to_string(),
            },
            update_service::Redirection {
                incoming_domain: "Example.com".to_string(),
                target: "192.168.1.101:8081".to_string(),
            },
            update_service::Redirection {
                incoming_domain: "bad".to_string(),
                target: "some.domain.com:9090".to_string(),
            },
        ],
    };
    let answers = vec![nothing(), nothing(), Err("unknown".to_string())];
    let bind = SocketAddr::new(IpAddr::V4(v4(127, 0, 0, 1)), 5);
    let complaints = update_service::apply_config(&mut service, &config, bind, &answers);
    assert_eq!(
        complaints,
        vec![
            "Error parsing target some.domain.com:9090: Failed to resolve domain name: unknown"
                .to_string()
        ]
    );
    assert_eq!(service.bind_address, bind);
    assert_eq!(service.proxy_threads, 2);
    service
}

#[test]
fn the_service_resolves_domains_as_they_are_written() {
    let service = service(false, 0);
    assert_eq!(
        update_service::resolve(&service, "Example.com".to_string()),
        Some((v4(192, 168, 1, 101), 8081))
    );
    assert_eq!(update_service::resolve(&service, "example.com".to_string()), None);
    assert_eq!(update_service::resolve(&service, "bad".to_string()), None);
}

#[test]
fn targets_are_not_overrun() {
    let mut service = service(true, 2);
    assert_eq!(try_register_connection(&mut service, "a", 10).unwrap().target, "a");
    assert!(try_register_connection(&mut service, "a", 10).is_some());
    assert!(try_register_connection(&mut service, "a", 10).is_none());
    assert!(try_register_connection(&mut service, "b", 10).is_some());
    assert!(try_register_connection(&mut service, "a", 11).is_some());
}

#[test]
fn without_protection_every_connection_is_allowed() {
    let mut service = service(false, 0);
    for _ in 0..50 {
        assert!(try_register_connection(&mut service, "a", 10).is_some());
    }
}

#[test]
fn a_rate_of_zero_lets_nothing_through() {
    let mut service = service(true, 0);
    for now in [10, 10, 11, 12, 5] {
        assert!(try_register_connection(&mut service, "a", now).is_none());
    }
}

#[test]
fn other_targets_in_between_do_not_count() {
    let mut service = service(true, 1);
    assert!(try_register_connection(&mut service, "a", 10).is_some());
    assert!(try_register_connection(&mut service, "b", 10).is_some());
    assert!(try_register_connection(&mut service, "a", 10).is_none());
    assert!(try_register_connection(&mut service, "c", 10).is_some());
    assert!(try_register_connection(&mut service, "b", 10).is_none());
    assert!(try_register_connection(&mut service, "a", 11).is_some());
}

#[test]
fn the_service_opens_its_configuration() {
    assert!(matches!(update_service::update_proxies(), LoadStep::Open(path) if path == "config.yml"));
    assert!(matches!(
        update_service::update_proxies_from_config("x"),
        LoadStep::Open(path) if path == "x"
    ));
    assert!(matches!(
        update_service::config_opened("x", OpenOutcome::NotFound),
        LoadStep::Create(path, text) if path == "x" && text == update_service::default_config()
    ));
    match update_service::config_opened("x", OpenOutcome::Unreadable("bad".to_string())) {
        LoadStep::Abort(why) => assert_eq!(why, "Unable to read config file: bad"),
        other => panic!("{:?}", other),
    }
    match update_service::config_opened("x", OpenOutcome::Failed("bad".to_string())) {
        LoadStep::Abort(why) => assert_eq!(why, "Error opening config file: bad"),
        other => panic!("{:?}", other),
    }
}
