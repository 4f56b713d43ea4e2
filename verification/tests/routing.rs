use relay::config::relay_config;
use relay::config::Config;
use relay::config::ConfigError;
use relay::config::RelayConfig;
use relay::config::RelayTunnelConfig;
use relay::config::ServiceType;
use relay::config::TransportConfig;
use relay::config::TransportType;
use relay::data_channel::OpenError;
use relay::ingress::route_request;
use relay::ingress::IngressReadError;
use relay::ingress::IngressRefusal;
use relay::ingress::PrefixProgress;
use relay::ingress::PrefixReader;
use relay::ingress::RoutedRequest;
use relay::maps::ControlChannelMap;
use relay::protocol::digest;
use relay::registry::RegistryError;
use relay::registry::RelayRegistry;
use relay::registry::UrlHost;
use relay::server::server_action;
use relay::server::RelayServer;
use relay::server::ServerAction;
use relay::server::ServerEvent;
use relay::token::hash_token;
use relay::token::HexError;
use relay::token::TokenHashError;
use url::Url;

fn tunnel(id: &str, url: &str) -> RelayTunnelConfig {
    RelayTunnelConfig {
        id: id.to_string(),
        url: url.to_string(),
        token_hash: hash_token("secret"),
        nodelay: None,
    }
}

fn registry_of(tunnels: &[RelayTunnelConfig]) -> RelayRegistry {
    RelayRegistry::from_tunnels(tunnels).unwrap()
}

fn registry_error(tunnels: &[RelayTunnelConfig]) -> RegistryError {
    match RelayRegistry::from_tunnels(tunnels) {
        Ok(_) => panic!("the tunnels were accepted"),
        Err(error) => error,
    }
}

fn config(tunnels: Vec<RelayTunnelConfig>, transport_type: TransportType) -> RelayConfig {
    RelayConfig {
        control_addr: "127.0.0.1:2333".to_string(),
        ingress_addr: "127.0.0.1:8080".to_string(),
        transport: TransportConfig { transport_type },
        heartbeat_interval: 30,
        max_header_bytes: 16384,
        tunnels,
    }
}

fn request(host: &str) -> Vec<u8> {
    format!("GET / HTTP/1.1\r\nHost: {host}\r\n\r\n").into_bytes()
}

/// Feeds the chunks one by one; gives up at the end of the chunks.
fn read(chunks: &[&[u8]], limit: usize) -> Result<Option<Vec<u8>>, IngressReadError> {
    let mut reader = PrefixReader::new(limit);
    for chunk in chunks {
        match reader.feed(chunk)? {
            PrefixProgress::Complete(prefix) => return Ok(Some(prefix)),
            PrefixProgress::More(next) => reader = next,
        }
    }
    Ok(None)
}

#[test]
fn registry_maps_exact_hosts() {
    let registry = RelayRegistry::from_tunnels(&[RelayTunnelConfig {
        id: "alexander-main".into(),
        url: Url::parse("https://utuWcUQps7w0.getpioneer.dev").unwrap().into(),
        token_hash: hash_token("secret").into(),
        nodelay: Some(true),
    }])
    .unwrap();

    let digest = digest(b"alexander-main");
    assert_eq!(
        registry.by_host.get("utuwcuqps7w0.getpioneer.dev"),
        Some(&digest)
    );
    assert!(registry.by_digest.contains_key(&digest));
}

#[test]
fn tunnels_are_ready_to_be_served() {
    let mut alpha = tunnel("alpha", "https://Alpha.Example/path");
    alpha.nodelay = Some(false);
    let registry = registry_of(&[alpha, tunnel("beta", "http://beta.example:8080")]);
    let runtime = registry.by_digest.get(&digest(b"alpha")).unwrap();
    assert_eq!(runtime.id, "alpha");
    assert_eq!(runtime.host, "alpha.example");
    assert_eq!(runtime.token_hash, digest(b"secret"));
    assert_eq!(runtime.service.service_type, ServiceType::Tcp);
    assert_eq!(runtime.service.name, "alpha");
    assert_eq!(runtime.service.bind_addr, "");
    assert_eq!(runtime.service.token, None);
    assert_eq!(runtime.service.nodelay, Some(false));
    assert_eq!(registry.by_host.get("alpha.example"), Some(&digest(b"alpha")));
    assert_eq!(registry.by_host.get("beta.example"), Some(&digest(b"beta")));
    assert_eq!(registry.by_host.get("gamma.example"), None);
    assert_eq!(registry.by_host.len(), 2);
    assert!(!registry.by_digest.contains_key(&digest(b"gamma")));
}

#[test]
fn hosts_of_unusual_schemes_are_lowercased() {
    let registry = registry_of(&[tunnel("a", "relay://Some.Host")]);
    assert_eq!(registry.by_host.get("some.host"), Some(&digest(b"a")));
}

#[test]
fn no_tunnels_make_an_empty_registry() {
    let registry = registry_of(&[]);
    assert_eq!(registry.by_host.len(), 0);
    assert!(registry.by_digest.get(&digest(b"")).is_none());
}

#[test]
fn last_tunnel_wins() {
    let mut second = tunnel("a", "http://two.example");
    second.token_hash = hash_token("other");
    let registry = registry_of(&[
        tunnel("a", "http://one.example"),
        second,
        tunnel("b", "http://one.example"),
    ]);
    let a = registry.by_digest.get(&digest(b"a")).unwrap();
    assert_eq!(a.host, "two.example");
    assert_eq!(a.token_hash, digest(b"other"));
    assert_eq!(registry.by_host.get("one.example"), Some(&digest(b"b")));
    assert_eq!(registry.by_host.get("two.example"), Some(&digest(b"a")));
}

#[test]
fn old_host_of_a_replaced_tunnel_still_leads_to_it() {
    let registry = registry_of(&[
        tunnel("a", "http://one.example"),
        tunnel("a", "http://two.example"),
    ]);
    assert_eq!(registry.by_host.get("one.example"), Some(&digest(b"a")));
    assert_eq!(registry.by_digest.get(&digest(b"a")).unwrap().host, "two.example");
}

#[test]
fn tunnel_without_host_is_refused() {
    let error = registry_error(&[tunnel("a", "http://a.example"), tunnel("b", "mailto:me@b.example")]);
    assert!(matches!(&error, RegistryError::NoHost { id } if id == "b"));
    assert_eq!(error.message(), "relay tunnel `b` URL has no host");
    assert_eq!(error.outer_message(), "relay tunnel `b` URL has no host");
}

#[test]
fn tunnel_with_a_text_that_is_no_url_is_refused() {
    let error = registry_error(&[tunnel("a", "a.example")]);
    assert!(matches!(&error, RegistryError::InvalidUrl { id } if id == "a"));
    assert_eq!(error.message(), "relay tunnel `a` URL is invalid");
    assert_eq!(error.outer_message(), "relay tunnel `a` URL is invalid");
}

#[test]
fn tunnel_with_a_wrong_token_hash_is_refused() {
    let mut odd = tunnel("a", "http://a.example");
    odd.token_hash = "sha256:0".to_string();
    let error = registry_error(&[odd.clone(), tunnel("b", "mailto:b")]);
    assert!(matches!(
        &error,
        RegistryError::InvalidTokenHash {
            id,
            error: TokenHashError::InvalidHex(HexError::OddLength),
        } if id == "a"
    ));
    assert_eq!(
        error.message(),
        "invalid token_hash for relay tunnel `a`: invalid token_hash hex: Odd number of digits"
    );
    assert_eq!(error.outer_message(), "invalid token_hash for relay tunnel `a`");
    odd.url = "mailto:a".to_string();
    assert!(matches!(registry_error(&[odd]), RegistryError::NoHost { .. }));
}

#[test]
fn first_tunnel_that_cannot_be_served_decides() {
    let mut short = tunnel("short", "http://short.example");
    short.token_hash = "abcd".to_string();
    let good = tunnel("good", "http://good.example");
    let hostless = tunnel("hostless", "mailto:me");
    let error = registry_error(&[good.clone(), short.clone(), hostless.clone()]);
    assert_eq!(error.outer_message(), "invalid token_hash for relay tunnel `short`");
    assert_eq!(
        error.message(),
        "invalid token_hash for relay tunnel `short`: token_hash must be 32 bytes, got 2"
    );
    assert!(matches!(
        error,
        RegistryError::InvalidTokenHash { error: TokenHashError::WrongLength { got: 2 }, .. }
    ));
    let error = registry_error(&[good, hostless, short]);
    assert_eq!(error.outer_message(), "relay tunnel `hostless` URL has no host");
}

#[test]
fn digests_are_those_of_the_names() {
    let registry = registry_of(&[
        tunnel("a", "http://one.example"),
        tunnel("b", "http://one.example"),
    ]);
    assert!(registry.by_digest.contains_key(&digest(b"a")));
    assert!(registry.by_digest.contains_key(&digest(b"b")));
    assert!(!registry.by_digest.contains_key(&digest(b"one.example")));
}

#[test]
fn refused_tunnel_leaves_the_registry_as_it_was() {
    let mut registry = registry_of(&[tunnel("a", "http://a.example")]);
    let missing = registry.add_tunnel(&tunnel("b", ""), UrlHost::Missing, digest(b"b"));
    assert!(matches!(missing, Err(RegistryError::NoHost { .. })));
    let invalid = registry.add_tunnel(&tunnel("b", ""), UrlHost::Invalid, digest(b"b"));
    assert!(matches!(invalid, Err(RegistryError::InvalidUrl { .. })));
    assert_eq!(registry.by_host.len(), 1);
    assert!(!registry.by_digest.contains_key(&digest(b"b")));
    let found = registry.add_tunnel(
        &tunnel("b", ""),
        UrlHost::Found("B.example".to_string()),
        digest(b"b"),
    );
    assert!(found.is_ok());
    assert_eq!(registry.by_host.get("b.example"), Some(&digest(b"b")));
}

#[test]
fn relay_block_is_picked() {
    let relay = relay_config(Config { relay: Some(config(vec![], TransportType::Tcp)) }).unwrap();
    assert_eq!(relay.ingress_addr, "127.0.0.1:8080");
    assert_eq!(relay.heartbeat_interval, 30);
}

#[test]
fn missing_relay_block_is_refused() {
    let error = relay_config(Config { relay: None }).unwrap_err();
    assert_eq!(error, ConfigError::MissingRelay);
    assert_eq!(
        error.message(),
        "Try to run as a relay, but the configuration is missing. Please add the `[relay]` block"
    );
}

#[test]
fn transports_other_than_tcp_are_refused() {
    for transport in [TransportType::Tls, TransportType::Noise, TransportType::Websocket] {
        let error = relay_config(Config { relay: Some(config(vec![], transport)) }).unwrap_err();
        assert_eq!(error, ConfigError::UnsupportedTransport);
        assert_eq!(error.message(), "relay supports raw tcp transport only");
    }
}

#[test]
fn server_starts_with_its_tunnels_and_no_channels() {
    let tunnels = vec![tunnel("a", "http://a.example")];
    let server: RelayServer<u8> =
        match RelayServer::from_config(config(tunnels, TransportType::Tcp)) {
            Ok(server) => server,
            Err(error) => panic!("{}", error.message()),
        };
    assert_eq!(server.config.tunnels.len(), 1);
    assert!(server.registry.by_digest.contains_key(&digest(b"a")));
    assert_eq!(server.control_channels.get1(&digest(b"a")), None);
}

#[test]
fn server_does_not_start_with_a_wrong_tunnel() {
    let wrong = config(vec![tunnel("a", "mailto:a")], TransportType::Tcp);
    assert!(matches!(
        RelayServer::<u8>::from_config(wrong),
        Err(RegistryError::NoHost { .. })
    ));
}

#[test]
fn server_stops_for_a_shutdown_alone() {
    let reactions = [
        (ServerEvent::ClientAccepted, ServerAction::ServeClient),
        (ServerEvent::ClientFailed { delayed: true }, ServerAction::Pause),
        (ServerEvent::ClientFailed { delayed: false }, ServerAction::Continue),
        (ServerEvent::VisitorAccepted, ServerAction::ServeVisitor),
        (ServerEvent::VisitorFailed, ServerAction::Report),
        (ServerEvent::Shutdown, ServerAction::Stop),
        (ServerEvent::Update, ServerAction::IgnoreUpdate),
        (ServerEvent::NoMoreUpdates, ServerAction::Continue),
    ];
    for (event, action) in reactions {
        assert_eq!(server_action(event), action);
    }
}

#[test]
fn request_is_read_however_it_is_cut() {
    let request = request("a.example");
    for cut in 1..request.len() {
        let (front, back) = request.split_at(cut);
        assert_eq!(read(&[front, back], 1000), Ok(Some(request.clone())));
    }
    let bytes: Vec<&[u8]> = request.chunks(1).collect();
    assert_eq!(read(&bytes, 1000), Ok(Some(request.clone())));
}

#[test]
fn bytes_behind_the_header_are_kept() {
    assert_eq!(
        read(&[b"GET /\r\n", b"\r\nbody"], 1000),
        Ok(Some(b"GET /\r\n\r\nbody".to_vec()))
    );
}

#[test]
fn chunks_behind_the_header_are_left_alone() {
    assert_eq!(
        read(&[b"GET /\r\n\r\n", b"body"], 1000),
        Ok(Some(b"GET /\r\n\r\n".to_vec()))
    );
}

#[test]
fn header_may_be_as_large_as_the_limit() {
    assert_eq!(read(&[b"GET /\r\n\r", b"\n"], 9), Ok(Some(b"GET /\r\n\r\n".to_vec())));
    assert_eq!(read(&[b"GET /\r\n\r"], 8), Ok(None));
    assert_eq!(read(&[b"GET /\r\n\r", b"\n"], 7), Err(IngressReadError::HeaderTooLarge));
}

#[test]
fn complete_header_is_read_even_over_the_limit() {
    assert_eq!(read(&[b"GET /\r\n\r\n"], 1), Ok(Some(b"GET /\r\n\r\n".to_vec())));
    assert_eq!(read(&[b"\r\n\r\n"], 0), Ok(Some(b"\r\n\r\n".to_vec())));
    assert_eq!(read(&[b"G"], 0), Err(IngressReadError::HeaderTooLarge));
}

#[test]
fn end_of_the_stream_is_noticed() {
    assert_eq!(read(&[b""], 10), Err(IngressReadError::Closed));
    assert_eq!(read(&[b"GET", b""], 10), Err(IngressReadError::Closed));
}

#[test]
fn only_large_headers_are_answered() {
    let large = IngressReadError::HeaderTooLarge;
    assert_eq!(large.message(), "ingress request header too large");
    let refusal = large.refusal().unwrap();
    assert_eq!(refusal.status(), 431);
    assert_eq!(refusal.message(), "ingress request header too large");
    assert_eq!(
        refusal.response(),
        "HTTP/1.1 431 Request Header Fields Too Large\r\nConnection: close\r\n\
         Content-Type: text/plain\r\nContent-Length: 36\r\n\r\n\
         431 Request Header Fields Too Large\n"
    );
    let closed = IngressReadError::Closed;
    assert_eq!(closed.message(), "ingress connection closed before headers");
    assert!(closed.refusal().is_none());
}

fn routed(host: &str) -> Result<RoutedRequest, IngressRefusal> {
    let registry = registry_of(&[
        tunnel("a", "http://a.example"),
        tunnel("v6", "http://[::1]:80"),
        tunnel("dot", "http://dot.example."),
    ]);
    route_request(request(host), &registry)
}

#[test]
fn request_is_routed_by_its_host() {
    for host in ["a.example", "A.Example", "a.example:80", "A.example.", "a.example.:8", " a.example "] {
        let routed = routed(host).unwrap();
        assert_eq!(routed.host(), "a.example");
        assert_eq!(routed.service_digest(), digest(b"a"));
        assert_eq!(routed.forward(Ok(())).unwrap(), request(host));
    }
}

#[test]
fn hosts_that_are_not_plain_names_are_not_reached() {
    assert!(matches!(routed("[::1]"), Err(IngressRefusal::UnknownHost { host }) if host == "::1"));
    assert!(matches!(
        routed("dot.example."),
        Err(IngressRefusal::UnknownHost { host }) if host == "dot.example"
    ));
}

#[test]
fn request_without_a_host_is_refused() {
    let refusal = routed("").unwrap_err();
    assert!(matches!(refusal, IngressRefusal::MissingHost));
    assert_eq!((refusal.status(), refusal.reason()), (400, "Bad Request"));
    assert_eq!(refusal.message(), "ingress request has no Host header");
}

#[test]
fn request_for_an_unknown_host_is_refused() {
    let refusal = routed("B.example:1").unwrap_err();
    assert_eq!((refusal.status(), refusal.reason()), (404, "Not Found"));
    assert_eq!(refusal.message(), "unknown relay host `b.example`");
    assert!(refusal.response().starts_with("HTTP/1.1 404 Not Found\r\n"));
}

#[test]
fn request_for_a_tunnel_without_client_is_refused() {
    let mut channels = ControlChannelMap::new();
    let routed = routed("A.example").unwrap();
    let refusal = routed.channel(&channels).unwrap_err();
    assert_eq!((refusal.status(), refusal.reason()), (503, "Service Unavailable"));
    assert_eq!(refusal.message(), "relay tunnel for `a.example` is not connected");
    assert!(channels.insert(digest(b"a"), digest(b"key"), 5u8).is_ok());
    assert_eq!(routed.channel(&channels).unwrap(), &5);
}

#[test]
fn request_without_a_data_channel_is_refused() {
    let refusal = routed("a.example")
        .unwrap()
        .forward(Err(OpenError::Unavailable { tunnel: "a".to_string() }))
        .unwrap_err();
    assert_eq!((refusal.status(), refusal.reason()), (502, "Bad Gateway"));
    assert_eq!(refusal.message(), "no available relay data channel for `a`");
    let refusal = routed("a.example")
        .unwrap()
        .forward(Err(OpenError::ControlChannelClosed))
        .unwrap_err();
    assert_eq!(refusal.status(), 502);
    assert_eq!(refusal.message(), "relay control channel is closed");
}

#[test]
fn route_does_not_depend_on_chunks() {
    let registry = registry_of(&[tunnel("a", "http://a.example")]);
    let stream = b"GET / HTTP/1.1\r\nHost: a.example\r\n\r\nHost: b\r\n\r\n";
    for size in 1..stream.len() {
        let chunks: Vec<&[u8]> = stream.chunks(size).collect();
        let prefix = read(&chunks, 1000).unwrap().unwrap();
        assert_eq!(route_request(prefix, &registry).unwrap().host(), "a.example");
    }
}
