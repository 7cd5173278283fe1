use std::sync::Arc;

use mysti::address::{ConfigError, Protocol, SocketAddress};
use mysti::arg::{MystiArg, MystiEngine};
use mysti::engine::{forward_headers, Engine};
use mysti::gateway::UriMapping;
use mysti::service::{
    ConnectionEvent, ConnectionState, Orchestrator, ServiceAction, ServiceEvent, ServicePhase,
    ServiceState,
};

fn service_with(mappings: Option<Vec<UriMapping>>) -> MystiEngine {
    MystiEngine {
        name: "svc".to_string(),
        listen: "tcp://127.0.0.1:0".to_string(),
        target: "tcp://127.0.0.1:1".to_string(),
        protocol: "http".to_string(),
        uri_mapping: mappings,
        timeout: None,
        header: None,
    }
}

#[test]
fn parses_tcp_address() {
    match SocketAddress::parse("tcp://0.0.0.0:3000") {
        Ok(SocketAddress::Tcp(a)) => assert_eq!(a, "0.0.0.0:3000"),
        other => panic!("unexpected {:?}", other),
    }
}

#[test]
fn parses_unix_address() {
    match SocketAddress::parse("unix:///tmp/a.sock") {
        Ok(SocketAddress::Unix(a)) => assert_eq!(a, "/tmp/a.sock"),
        other => panic!("unexpected {:?}", other),
    }
}

#[test]
fn address_errors() {
    assert!(matches!(SocketAddress::parse("0.0.0.0:3000"), Err(ConfigError::MissingScheme)));
    assert!(matches!(SocketAddress::parse("udp://1.2.3.4:5"), Err(ConfigError::UnsupportedScheme)));
    assert!(matches!(SocketAddress::parse("TCP://1.2.3.4:5"), Err(ConfigError::UnsupportedScheme)));
}

#[test]
fn address_keeps_text_after_first_separator() {
    match SocketAddress::parse("unix://a://b") {
        Ok(SocketAddress::Unix(a)) => assert_eq!(a, "a://b"),
        other => panic!("unexpected {:?}", other),
    }
}

#[test]
fn address_formats_back() {
    assert_eq!(SocketAddress::Tcp("h:1".to_string()).to_uri_string(), "tcp://h:1");
    assert_eq!(SocketAddress::Unix("/s".to_string()).to_uri_string(), "unix:///s");
    let a = SocketAddress::parse("tcp://[::1]:80").unwrap();
    assert_eq!(a.to_uri_string(), "tcp://[::1]:80");
}

#[test]
fn protocol_parsing() {
    assert_eq!(Protocol::parse("tcp"), Ok(Protocol::Tcp));
    assert_eq!(Protocol::parse("http"), Ok(Protocol::Http));
    assert_eq!(Protocol::parse("udp"), Err(ConfigError::UnsupportedProtocol));
}

#[test]
fn default_service_from_arguments() {
    let arg = MystiArg { target: Some("unix:///t.sock".to_string()), listen: None, config: None };
    let svc = arg.default_service(None).unwrap();
    assert_eq!(svc.name, "default");
    assert_eq!(svc.listen, "tcp://0.0.0.0:3000");
    assert_eq!(svc.target, "unix:///t.sock");
    assert_eq!(svc.protocol, "tcp");
    let arg = MystiArg { target: None, listen: Some("tcp://1.1.1.1:1".to_string()), config: None };
    let svc = arg.default_service(Some("tcp://k:443".to_string())).unwrap();
    assert_eq!(svc.listen, "tcp://1.1.1.1:1");
    assert_eq!(svc.target, "tcp://k:443");
    assert!(arg.default_service(None).is_none());
}

#[test]
fn outbound_uri_rewrites_path_and_keeps_query() {
    let mut m = UriMapping::default();
    m.uri = Some("/api/users/{id:[0-9]+}".to_string());
    m.target_uri = Some("/user/{id}".to_string());
    let engine = Engine::new(Arc::new(service_with(Some(vec![m]))));
    assert_eq!(engine.outbound_uri("GET", "/api/users/5?x=1&y=2"), "/user/5?x=1&y=2");
    assert_eq!(engine.outbound_uri("GET", "/api/users/5"), "/user/5");
    assert_eq!(engine.outbound_uri("GET", "/other?q"), "/other?q");
    assert_eq!(engine.service().name, "svc");
}

#[test]
fn outbound_uri_without_mappings_is_unchanged() {
    let engine = Engine::new(Arc::new(service_with(None)));
    assert_eq!(engine.outbound_uri("POST", "/a/b?c"), "/a/b?c");
}

#[test]
fn host_header_is_replaced() {
    let mut headers = vec![
        ("accept".to_string(), b"*/*".to_vec()),
        ("Host".to_string(), b"example.com".to_vec()),
        ("x-host".to_string(), b"keep".to_vec()),
    ];
    forward_headers(&mut headers);
    assert_eq!(headers[0], ("accept".to_string(), b"*/*".to_vec()));
    assert_eq!(headers[1], ("Host".to_string(), b"localhost".to_vec()));
    assert_eq!(headers[2], ("x-host".to_string(), b"keep".to_vec()));
}

#[test]
fn accept_loop_lifecycle() {
    let s = ServiceState::new();
    let (s, a) = s.step(ServiceEvent::Bound);
    assert_eq!((s.phase, a), (ServicePhase::Accepting, ServiceAction::Listen));
    let (s, a) = s.step(ServiceEvent::Accepted);
    assert_eq!((s.open, a), (1, ServiceAction::Dispatch));
    let (s, a) = s.step(ServiceEvent::AcceptFailed);
    assert_eq!((s.open, a), (1, ServiceAction::LogAndContinue));
    let (s, a) = s.step(ServiceEvent::ShutdownRequested);
    assert_eq!((s.phase, a), (ServicePhase::Draining, ServiceAction::StopAccepting));
    let (s, a) = s.step(ServiceEvent::Accepted);
    assert_eq!(a, ServiceAction::Refuse);
    let (s, a) = s.step(ServiceEvent::ConnectionClosed);
    assert_eq!((s.phase, s.open, a), (ServicePhase::Stopped, 0, ServiceAction::Finish));
    let (s, a) = s.step(ServiceEvent::Bound);
    assert_eq!((s.phase, a), (ServicePhase::Stopped, ServiceAction::Ignore));
}

#[test]
fn shutdown_with_nothing_open_finishes() {
    let (s, _) = ServiceState::new().step(ServiceEvent::Bound);
    let (s, a) = s.step(ServiceEvent::ShutdownRequested);
    assert_eq!((s.phase, a), (ServicePhase::Stopped, ServiceAction::Finish));
}

#[test]
fn bind_failure_is_isolated() {
    let mut o = Orchestrator::new(3);
    assert_eq!(o.apply(1, ServiceEvent::BindFailed), ServiceAction::GiveUp);
    assert_eq!(o.services[1].phase, ServicePhase::Failed);
    assert_eq!(o.services[0].phase, ServicePhase::Starting);
    assert_eq!(o.apply(0, ServiceEvent::Bound), ServiceAction::Listen);
    assert_eq!(o.apply(2, ServiceEvent::Bound), ServiceAction::Listen);
    assert_eq!(o.apply(0, ServiceEvent::Accepted), ServiceAction::Dispatch);
    assert_eq!(o.apply(1, ServiceEvent::Accepted), ServiceAction::Ignore);
    assert_eq!(o.services[0].open, 1);
    assert_eq!(o.services[2].phase, ServicePhase::Accepting);
}

#[test]
fn connection_lifecycles() {
    let s = ConnectionState::Accepted.step(ConnectionEvent::Start(Protocol::Http));
    assert_eq!(s, ConnectionState::Negotiating);
    let s = s.step(ConnectionEvent::Negotiated);
    assert_eq!(s, ConnectionState::Serving);
    let s = s.step(ConnectionEvent::RequestDone);
    assert_eq!(s, ConnectionState::Negotiating);
    let s = s.step(ConnectionEvent::Ended);
    assert_eq!(s, ConnectionState::Closed);
    assert_eq!(s.step(ConnectionEvent::Start(Protocol::Tcp)), ConnectionState::Closed);
    let t = ConnectionState::Accepted.step(ConnectionEvent::Start(Protocol::Tcp));
    assert_eq!(t, ConnectionState::Tunneling);
    assert_eq!(t.step(ConnectionEvent::Negotiated), ConnectionState::Tunneling);
    assert_eq!(t.step(ConnectionEvent::Ended), ConnectionState::Closed);
}
