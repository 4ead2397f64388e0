use pigeons::config::Config;
use pigeons::identity::{persistent_endpoint_id, SecretKey};
use pigeons::tunnel::{
    collect_relay_urls, endpoint_addr, iroh_services_api_secret, parse_relay_urls, BuildStep,
    RelayUrl, RoostConfig, SecretCandidate, SshConfig, TransportAddr, TunnelBuilder,
};

fn relay(url: &str) -> RelayUrl {
    RelayUrl {
        url: url.to_string(),
    }
}

fn candidate(text: &str, valid: bool) -> Option<SecretCandidate> {
    Some(SecretCandidate {
        text: text.to_string(),
        valid,
    })
}

fn setting(telemetry_enabled: Option<bool>) -> Config {
    Config { telemetry_enabled }
}

#[test]
fn endpoint_addr_includes_explicit_relay_and_direct_routes() {
    let id = persistent_endpoint_id(&SecretKey::from_bytes(iroh::SecretKey::generate().to_bytes()));
    let relays = parse_relay_urls(&vec!["https://relay.example.com".to_string()]).unwrap();
    let direct = "192.0.2.1:4242".to_string();

    let addr = endpoint_addr(id, relays, vec![direct]);

    assert!(addr.addrs().iter().any(|address| address.is_relay()));
    assert!(addr.addrs().iter().any(|address| address.is_ip()));
    assert_eq!(addr.id().to_bytes(), id.to_bytes());
}

#[test]
fn each_route_is_kept_once() {
    let id = persistent_endpoint_id(&SecretKey::from_bytes([1; 32]));
    let addr = endpoint_addr(
        id,
        vec![relay("https://b/"), relay("https://a/"), relay("https://b/")],
        vec!["1.2.3.4:5".to_string(), "1.2.3.4:5".to_string()],
    );
    let shown: Vec<String> = addr
        .addrs()
        .iter()
        .map(|a| match a {
            TransportAddr::Ip(s) => format!("ip {s}"),
            TransportAddr::Relay(s) => format!("relay {s}"),
        })
        .collect();
    assert_eq!(
        shown,
        vec!["ip 1.2.3.4:5", "relay https://b/", "relay https://a/"]
    );
}

#[test]
fn relay_urls_are_brought_into_normal_form() {
    let given = vec!["https://example.com".to_string(), "HTTP://A:80/x".to_string()];
    let urls = parse_relay_urls(&given).unwrap();
    assert_eq!(urls.len(), 2);
    assert_eq!(urls[0].url, "https://example.com/");
    assert_eq!(urls[1].url, "http://a/x");
    for (text, url) in given.iter().zip(&urls) {
        let theirs: iroh::RelayUrl = text.parse().unwrap();
        assert_eq!(theirs.to_string(), url.url);
    }
}

#[test]
fn the_first_text_that_is_no_url_is_reported() {
    let given = vec![
        "https://example.com".to_string(),
        "not a url".to_string(),
        "neither".to_string(),
    ];
    let error = parse_relay_urls(&given).unwrap_err();
    assert_eq!(error.url, "not a url");
    let theirs = "not a url".parse::<iroh::RelayUrl>().unwrap_err();
    assert_eq!(
        error.message(),
        format!("invalid relay URL 'not a url': {theirs}")
    );
    assert!(parse_relay_urls(&vec![]).unwrap().is_empty());
}

#[test]
fn relay_urls_are_collected_in_order() {
    let given = vec!["a".to_string(), "b".to_string()];
    let urls = collect_relay_urls(&given, vec![Some("x".to_string()), Some("y".to_string())]);
    let urls: Vec<String> = urls.unwrap().into_iter().map(|u| u.url).collect();
    assert_eq!(urls, vec!["x", "y"]);
    let error = collect_relay_urls(&given, vec![Some("x".to_string()), None]).unwrap_err();
    assert_eq!(error.url, "b");
}

#[test]
fn roosts_look_for_ssh_on_its_own_port() {
    assert_eq!(SshConfig::default().ssh_port, 22);
    assert_eq!(RoostConfig { ssh_port: 2222 }.ssh_port, 2222);
}

#[test]
fn the_secret_of_the_environment_comes_first() {
    let on = setting(Some(true));
    let secret = |env, build| iroh_services_api_secret(&on, env, build);
    assert_eq!(
        secret(candidate("env", true), candidate("build", true)).as_deref(),
        Some("env")
    );
    assert_eq!(
        secret(candidate("env", false), candidate("build", true)).as_deref(),
        Some("build")
    );
    assert_eq!(secret(None, candidate("build", true)).as_deref(), Some("build"));
    assert_eq!(secret(candidate("env", false), candidate("build", false)), None);
    assert_eq!(secret(None, None), None);
}

#[test]
fn no_secret_is_used_unless_metrics_are_enabled() {
    for off in [None, Some(false)] {
        assert_eq!(
            iroh_services_api_secret(&setting(off), candidate("env", true), candidate("b", true)),
            None
        );
    }
}

fn steps(builder: TunnelBuilder) -> Vec<String> {
    builder
        .build()
        .into_iter()
        .map(|step| match step {
            BuildStep::Bind(key, relays) => format!(
                "bind {} {:?}",
                key.to_bytes()[0],
                relays.map(|v| v.into_iter().map(|r| r.url).collect::<Vec<String>>())
            ),
            BuildStep::SendMetrics(secret) => format!("metrics {secret}"),
            BuildStep::ProbeSsh(port) => format!("probe {port}"),
            BuildStep::AcceptPigeons(port) => format!("accept {port}"),
            BuildStep::Spawn => "spawn".to_string(),
        })
        .collect()
}

#[test]
fn a_plain_tunnel_is_bound_and_spawned() {
    let builder = TunnelBuilder::new(SecretKey::from_bytes([5; 32]), setting(None), None, None);
    assert!(builder.roost.is_none());
    assert_eq!(builder.config, setting(None));
    assert_eq!(steps(builder), vec!["bind 5 None", "spawn"]);
}

#[test]
fn a_roost_looks_for_ssh_before_it_accepts() {
    let mut builder = TunnelBuilder::new(
        SecretKey::from_bytes([6; 32]),
        setting(Some(true)),
        candidate("env", true),
        None,
    );
    builder.roost = Some(RoostConfig { ssh_port: 2222 });
    builder.relay_urls = vec![relay("https://r/")];
    assert_eq!(
        steps(builder),
        vec![
            "bind 6 Some([\"https://r/\"])",
            "metrics env",
            "probe 2222",
            "accept 2222",
            "spawn"
        ]
    );
}

#[test]
fn the_secret_can_be_set() {
    let builder = || {
        TunnelBuilder::new(
            SecretKey::from_bytes([6; 32]),
            setting(Some(true)),
            candidate("env", true),
            None,
        )
    };
    assert_eq!(builder().isvc_api_secret.as_deref(), Some("env"));
    assert_eq!(builder().api_secret(None).isvc_api_secret, None);
    assert_eq!(
        builder().api_secret(Some("other".to_string())).isvc_api_secret.as_deref(),
        Some("other")
    );
}
