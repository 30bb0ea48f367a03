use net_connect::route::{push_decimal, with_header, Header, UnresolvedRouteDescription, WebSocketServiceRoute};

fn description(host: &str, port: u16, front: Option<&str>) -> UnresolvedRouteDescription {
    UnresolvedRouteDescription {
        host: host.to_string(),
        port,
        front_name: front.map(|f| f.to_string()),
    }
}

fn route(id: u64, host_header: &str, front: Option<&str>) -> WebSocketServiceRoute {
    WebSocketServiceRoute {
        id,
        endpoint: "/first".to_string(),
        headers: vec![],
        host_header: host_header.to_string(),
        front_name: front.map(|f| f.to_string()),
        host: "direct-host".to_string(),
        port: 1234,
    }
}

#[test]
fn fronted_untrusted_route_is_redacted() {
    let d = description("direct-host", 1234, Some("proxyf"));
    assert_eq!(d.to_log_string(), "REDACTED:1234 fronted by proxyf");
}

#[test]
fn trusted_route_keeps_its_host() {
    let d = description("chat.lavendarsolution.org", 443, None);
    assert_eq!(d.to_log_string(), "chat.lavendarsolution.org:443");
    let d = description("localhost", 8080, Some("proxyg"));
    assert_eq!(d.to_log_string(), "localhost:8080 fronted by proxyg");
}

#[test]
fn port_extremes_render_in_decimal() {
    assert_eq!(description("localhost", 0, None).to_log_string(), "localhost:0");
    assert_eq!(description("localhost", 65535, None).to_log_string(), "localhost:65535");
    let mut s = String::from("n=");
    push_decimal(&mut s, 10);
    assert_eq!(s, "n=10");
}

#[test]
fn route_description_keeps_host_port_and_front() {
    let r = route(7, "second-host", Some("proxyf"));
    let d = r.description();
    assert_eq!(d.host, "direct-host");
    assert_eq!(d.port, 1234);
    assert_eq!(d.front_name.as_deref(), Some("proxyf"));
}

#[test]
fn header_is_added_to_every_route() {
    let mut first = route(1, "first-host", None);
    first.headers.push(Header { name: "x-a".to_string(), value: "1".to_string() });
    let routes = vec![first, route(2, "second-host", Some("proxyf"))];
    let out = with_header(routes, "authorization", "Basic dXNlcjpwYXNz");
    assert_eq!(out.len(), 2);
    assert_eq!(out[0].id, 1);
    assert_eq!(out[1].id, 2);
    assert_eq!(out[0].headers.len(), 2);
    assert_eq!(out[0].headers[0].name, "x-a");
    assert_eq!(out[0].headers[1].name, "authorization");
    assert_eq!(out[0].headers[1].value, "Basic dXNlcjpwYXNz");
    assert_eq!(out[1].headers.len(), 1);
    assert_eq!(out[1].headers[0].value, "Basic dXNlcjpwYXNz");
    assert_eq!(out[1].host_header, "second-host");
}

#[test]
fn header_on_no_routes_gives_no_routes() {
    assert!(with_header(vec![], "a", "b").is_empty());
}
