use lb_proxy::balancer::{LoadBalancer, LoadBalancerType, RandomLoadBalancer};
use lb_proxy::codec::{parse, RequestBody, RequestParseError};
use lb_proxy::config::{AppConfig, Config, ConfigError, ServerConfig};
use lb_proxy::handler::{route, RouteError};
use lb_proxy::resolver::resolve;
use lb_proxy::response::{
    declared_length, forward_url, response_from_upstream, to_bytes, Response, ResponseBody,
    SendRequestError,
};

fn table(entries: &[(&str, &str)]) -> Vec<(String, String)> {
    entries
        .iter()
        .map(|(n, p)| (n.to_string(), p.to_string()))
        .collect()
}

fn hdr(name: &str, value: &str) -> (Vec<u8>, Vec<u8>) {
    (name.as_bytes().to_vec(), value.as_bytes().to_vec())
}

#[test]
fn test_resolve_app() {
    let path = "/awesome/app/v1/hello/world?lang=en";
    let apps = [
        ("app-1".to_string(), "/awesome/app/v1".to_string()),
        ("app-2".to_string(), "/awesome/app/v2".to_string()),
    ];

    assert_eq!("app-1", resolve(path, &apps).unwrap().as_str());
}

#[test]
fn resolve_picks_matching_prefix_or_none() {
    let apps = table(&[("A", "/v1"), ("B", "/v2")]);
    assert_eq!(resolve("/v1/x", &apps), Some("A".to_string()));
    assert_eq!(resolve("/v2", &apps), Some("B".to_string()));
    assert_eq!(resolve("/v3", &apps), None);
}

#[test]
fn resolve_registration_order_beats_longest_prefix() {
    let apps = table(&[("A", "/v1"), ("B", "/v1/x")]);
    assert_eq!(resolve("/v1/x/y", &apps), Some("A".to_string()));
    let reversed = table(&[("B", "/v1/x"), ("A", "/v1")]);
    assert_eq!(resolve("/v1/x/y", &reversed), Some("B".to_string()));
}

#[test]
fn resolve_on_empty_table_and_no_normalisation() {
    assert_eq!(resolve("/v1", &[]), None);
    let apps = table(&[("A", "/V1/")]);
    assert_eq!(resolve("/v1/", &apps), None);
    assert_eq!(resolve("/V1", &apps), None);
}

#[test]
fn parse_simple_get() {
    let req = parse(b"GET /foo HTTP/1.1\r\nHost: x\r\n\r\n").unwrap();
    assert_eq!(req.method, b"GET".to_vec());
    assert_eq!(req.target, b"/foo".to_vec());
    assert_eq!(req.version, b"HTTP/1.1".to_vec());
    assert_eq!(req.headers, vec![hdr("host", "x")]);
    assert!(req.body.is_none());
}

#[test]
fn parse_refuses_http10() {
    let r = parse(b"GET /foo HTTP/1.0\r\n\r\n");
    assert_eq!(r.unwrap_err(), RequestParseError::NotHttp1);
    let r = parse(b"GET /foo HTTP/1.0\r\nHost: x\r\nAccept: */*\r\n\r\n");
    assert_eq!(r.unwrap_err(), RequestParseError::NotHttp1);
}

#[test]
fn parse_refuses_two_token_request_line() {
    let r = parse(b"GET /foo\r\nHost: x\r\n\r\n");
    assert_eq!(r.unwrap_err(), RequestParseError::InvalidRequestLine);
    let r = parse(b"GET /foo HTTP/1.1 extra\r\n\r\n");
    assert_eq!(r.unwrap_err(), RequestParseError::InvalidRequestLine);
}

#[test]
fn parse_refuses_bad_method_and_target() {
    let r = parse(b"G(T /foo HTTP/1.1\r\n\r\n");
    assert_eq!(r.unwrap_err(), RequestParseError::InvalidRequestLine);
    let r = parse(b"GET /f\x7fo HTTP/1.1\r\n\r\n");
    assert_eq!(r.unwrap_err(), RequestParseError::InvalidRequestLine);
}

#[test]
fn parse_refuses_empty_and_invalid_utf8() {
    assert_eq!(parse(b"").unwrap_err(), RequestParseError::NoRequestLine);
    let r = parse(b"GET /foo HTTP/1.1\r\nX: \xff\xfe\r\n\r\n");
    assert_eq!(r.unwrap_err(), RequestParseError::InvalidEncoding);
}

#[test]
fn parse_refuses_header_without_colon() {
    let r = parse(b"GET /foo HTTP/1.1\r\nHost x\r\n\r\n");
    assert_eq!(r.unwrap_err(), RequestParseError::InvalidHeaders);
}

#[test]
fn parse_header_value_trimmed_and_split_at_first_colon() {
    let req = parse(b"GET / HTTP/1.1\r\nHost:   example.com:8080  \r\n\r\n").unwrap();
    assert_eq!(req.headers, vec![hdr("host", "example.com:8080")]);
}

#[test]
fn parse_keeps_repeated_headers() {
    let req = parse(b"GET / HTTP/1.1\r\nAccept: a\r\naccept: b\r\n\r\n").unwrap();
    assert_eq!(req.headers, vec![hdr("accept", "a"), hdr("accept", "b")]);
}

#[test]
fn parse_body_with_content_length() {
    let req = parse(b"POST /submit?x=1 HTTP/1.1\r\ncontent-LENGTH: 5\r\n\r\nhello").unwrap();
    assert_eq!(req.target, b"/submit?x=1".to_vec());
    match req.body {
        Some(RequestBody::Bytes(b)) => assert_eq!(b, b"hello".to_vec()),
        None => panic!("expected a body"),
    }
}

#[test]
fn parse_body_kept_verbatim_across_lines() {
    let req = parse(b"POST / HTTP/1.1\r\nContent-Length: 9\r\n\r\nab\r\ncd\nef").unwrap();
    match req.body {
        Some(RequestBody::Bytes(b)) => assert_eq!(b, b"ab\r\ncd\nef".to_vec()),
        None => panic!("expected a body"),
    }
}

#[test]
fn parse_zero_content_length_has_no_body() {
    let req = parse(b"POST / HTTP/1.1\r\nContent-Length: 0\r\n\r\n").unwrap();
    assert!(req.body.is_none());
    let req = parse(b"POST / HTTP/1.1\r\nContent-Length: +0\r\n\r\n").unwrap();
    assert!(req.body.is_none());
}

#[test]
fn parse_refuses_non_numeric_content_length() {
    let r = parse(b"POST / HTTP/1.1\r\nContent-Length: five\r\n\r\nhello");
    assert_eq!(r.unwrap_err(), RequestParseError::InvalidHeaders);
    let r = parse(b"POST / HTTP/1.1\r\nContent-Length: 99999999999999999999999\r\n\r\nx");
    assert_eq!(r.unwrap_err(), RequestParseError::InvalidHeaders);
}

#[test]
fn parse_missing_body() {
    let r = parse(b"POST / HTTP/1.1\r\nContent-Length: 5\r\n\r\n");
    assert_eq!(r.unwrap_err(), RequestParseError::NoBodyFound);
    let r = parse(b"POST / HTTP/1.1\r\nContent-Length: 5\r\n");
    assert_eq!(r.unwrap_err(), RequestParseError::NoBodyFound);
}

#[test]
fn serialize_204_without_body() {
    let resp = Response {
        status: 204,
        reason: b"No Content".to_vec(),
        headers: vec![hdr("server", "x"), hdr("date", "today")],
        body: None,
    };
    let out = to_bytes(resp);
    assert_eq!(out, b"HTTP/1.1 204 No Content\r\nserver:x\r\ndate:today\r\n\r\n".to_vec());
}

#[test]
fn serialize_with_body_and_no_headers() {
    let resp = Response {
        status: 200,
        reason: b"OK".to_vec(),
        headers: vec![],
        body: Some(ResponseBody::Bytes(b"hi\r\n".to_vec())),
    };
    assert_eq!(to_bytes(resp), b"HTTP/1.1 200 OK\r\n\r\nhi\r\n".to_vec());
}

#[test]
fn upstream_zero_length_has_no_body() {
    let r = response_from_upstream(200, vec![hdr("content-length", "0")], vec![]).unwrap();
    assert_eq!(r.status, 200);
    assert_eq!(r.reason, b"OK".to_vec());
    assert!(r.body.is_none());
    let r = response_from_upstream(204, vec![], vec![]).unwrap();
    assert_eq!(r.reason, b"No Content".to_vec());
    assert!(r.body.is_none());
}

#[test]
fn upstream_five_byte_body() {
    let r = response_from_upstream(200, vec![hdr("content-length", "5")], b"hello".to_vec()).unwrap();
    match r.body {
        Some(ResponseBody::Bytes(b)) => assert_eq!(b, b"hello".to_vec()),
        None => panic!("expected a body"),
    }
    assert_eq!(r.headers, vec![hdr("content-length", "5")]);
}

#[test]
fn upstream_errors() {
    assert_eq!(
        response_from_upstream(42, vec![], vec![]).unwrap_err(),
        SendRequestError::InvalidStatus
    );
    assert_eq!(
        response_from_upstream(200, vec![hdr("content-length", "x")], vec![]).unwrap_err(),
        SendRequestError::InvalidContentLength
    );
    assert_eq!(declared_length(&vec![hdr("content-length", "12")]), Ok(12));
    assert_eq!(declared_length(&vec![]), Ok(0));
}

#[test]
fn unknown_status_has_placeholder_reason() {
    let r = response_from_upstream(599, vec![], vec![]).unwrap();
    assert_eq!(r.reason, b"<unknown status code>".to_vec());
    assert_eq!(
        to_bytes(r),
        b"HTTP/1.1 599 <unknown status code>\r\n\r\n".to_vec()
    );
}

#[test]
fn forward_url_keeps_path_and_query() {
    let url = forward_url("127.0.0.1:8080", b"/a/b?c=d");
    assert_eq!(url, b"http://127.0.0.1:8080/a/b?c=d".to_vec());
}

#[test]
fn random_balancer_is_fair_and_stays_in_set() {
    let backends = vec!["10.0.0.1:80".to_string(), "10.0.0.2:80".to_string()];
    let mut lb = RandomLoadBalancer::new(backends.clone());
    let mut first = 0usize;
    for _ in 0..10_000 {
        let b = lb.choose_one();
        assert!(backends.contains(&b));
        if b == backends[0] {
            first += 1;
        }
    }
    assert!(first > 4_500 && first < 5_500, "first chosen {} times", first);
}

#[test]
fn balancer_counts_backends_and_picks_the_only_one() {
    let empty = LoadBalancer::new(LoadBalancerType::Random, vec![]);
    assert_eq!(empty.backend_count(), 0);
    let mut one = LoadBalancer::new(LoadBalancerType::Random, vec!["h:1".to_string()]);
    assert_eq!(one.backend_count(), 1);
    assert_eq!(one.choose_one(), "h:1".to_string());
}

#[test]
fn strategy_names_ignore_case() {
    assert_eq!(LoadBalancerType::from_str("random"), Ok(LoadBalancerType::Random));
    assert_eq!(LoadBalancerType::from_str("RaNdOm"), Ok(LoadBalancerType::Random));
    assert_eq!(
        LoadBalancerType::from_str("Round-Robin"),
        Err("Unknown load balancer type: 'round-robin'".to_string())
    );
    assert_eq!(LoadBalancerType::from_lowercase("random"), Ok(LoadBalancerType::Random));
    assert_eq!(
        LoadBalancerType::from_lowercase("Random"),
        Err("Unknown load balancer type: 'Random'".to_string())
    );
    assert_eq!(
        LoadBalancerType::from_lowercase(""),
        Err("Unknown load balancer type: ''".to_string())
    );
}

fn config(addr: [u8; 4], backends: Vec<String>) -> Config {
    Config {
        server: ServerConfig { listen_addr: addr, listen_port: 8080 },
        apps: vec![(
            "app".to_string(),
            AppConfig {
                path: "/app".to_string(),
                backends,
                load_balancer: LoadBalancerType::Random,
            },
        )],
    }
}

#[test]
fn config_validation() {
    let b = vec!["127.0.0.1:9000".to_string()];
    assert!(config([127, 0, 0, 1], b.clone()).validate().is_ok());
    assert!(config([10, 1, 2, 3], b.clone()).validate().is_ok());
    assert!(config([172, 16, 0, 1], b.clone()).validate().is_ok());
    assert!(config([192, 168, 1, 1], b.clone()).validate().is_ok());
    assert_eq!(
        config([8, 8, 8, 8], b.clone()).validate().unwrap_err(),
        ConfigError::ListenAddrNotPrivate
    );
    assert_eq!(
        config([172, 32, 0, 1], b.clone()).validate().unwrap_err(),
        ConfigError::ListenAddrNotPrivate
    );
    assert_eq!(
        config([127, 0, 0, 1], vec![]).validate().unwrap_err(),
        ConfigError::NoBackends { app: "app".to_string() }
    );
    let routes = config([127, 0, 0, 1], b).routes();
    assert_eq!(routes, vec![("app".to_string(), "/app".to_string())]);
}

#[test]
fn parse_refuses_control_byte_in_header_value() {
    let r = parse(b"GET / HTTP/1.1\r\nX-Note: a\x01b\r\n\r\n");
    assert_eq!(r.unwrap_err(), RequestParseError::InvalidHeaders);
    let req = parse(b"GET / HTTP/1.1\r\nX-Note: a\tb\r\n\r\n").unwrap();
    assert_eq!(req.headers, vec![hdr("x-note", "a\tb")]);
}

#[test]
fn parse_refuses_bad_header_name() {
    let r = parse(b"GET / HTTP/1.1\r\nBad Name: v\r\n\r\n");
    assert_eq!(r.unwrap_err(), RequestParseError::InvalidHeaders);
}

#[test]
fn parse_lf_only_line_endings() {
    let req = parse(b"GET /x HTTP/1.1\nHost: h\n\n").unwrap();
    assert_eq!(req.target, b"/x".to_vec());
    assert_eq!(req.headers, vec![hdr("host", "h")]);
}

#[test]
fn route_decodes_then_resolves() {
    let apps = table(&[("A", "/v1"), ("B", "/v2")]);
    let (req, name) = route(b"GET /v2/items?id=3 HTTP/1.1\r\nHost: x\r\n\r\n", &apps).unwrap();
    assert_eq!(name, "B".to_string());
    assert_eq!(req.target, b"/v2/items?id=3".to_vec());
    assert_eq!(
        route(b"GET /v3 HTTP/1.1\r\n\r\n", &apps).unwrap_err(),
        RouteError::NoApp
    );
    assert_eq!(
        route(b"GET /v1 HTTP/1.0\r\n\r\n", &apps).unwrap_err(),
        RouteError::Parse(RequestParseError::NotHttp1)
    );
}

#[test]
fn parse_splits_request_line_on_unicode_whitespace() {
    let req = parse("GET\u{a0}/foo\u{3000}HTTP/1.1\r\nHost: x\r\n\r\n".as_bytes()).unwrap();
    assert_eq!(req.method, b"GET".to_vec());
    assert_eq!(req.target, b"/foo".to_vec());
    assert_eq!(req.version, b"HTTP/1.1".to_vec());
    let r = parse("GET\u{a0}/foo HTTP/1.0\r\n\r\n".as_bytes());
    assert_eq!(r.unwrap_err(), RequestParseError::NotHttp1);
    let r = parse("GET\u{2009}/foo\r\n\r\n".as_bytes());
    assert_eq!(r.unwrap_err(), RequestParseError::InvalidRequestLine);
}

#[test]
fn parse_trims_unicode_whitespace_from_header_values() {
    let req = parse("GET / HTTP/1.1\r\nX-Note:\u{2003} caf\u{e9}\u{85}\u{a0}\r\n\r\n".as_bytes()).unwrap();
    assert_eq!(req.headers, vec![hdr("x-note", "caf\u{e9}")]);
}

#[test]
fn config_rejects_duplicate_app_names() {
    let b = vec!["127.0.0.1:9000".to_string()];
    let app = |path: &str| AppConfig {
        path: path.to_string(),
        backends: b.clone(),
        load_balancer: LoadBalancerType::Random,
    };
    let cfg = Config {
        server: ServerConfig { listen_addr: [127, 0, 0, 1], listen_port: 80 },
        apps: vec![
            ("a".to_string(), app("/a")),
            ("b".to_string(), app("/b")),
            ("a".to_string(), app("/c")),
        ],
    };
    assert_eq!(
        cfg.validate().unwrap_err(),
        ConfigError::DuplicateApp { app: "a".to_string() }
    );
}
