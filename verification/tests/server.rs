use dns_forwarder::addr::SocketAddress;
use dns_forwarder::config::{Config, Protocol, UpstreamConfig};
use dns_forwarder::middleware::logging::{LogPhase, LogRecord};
use dns_forwarder::middleware::stage::Stage;
use dns_forwarder::middleware::{Middleware, MiddlewareError};
use dns_forwarder::resolver::{ResolveCycle, ResolverError, Transport, UpstreamEvent, UpstreamRequest};
use dns_forwarder::server::{DnsServer, DnsServerError, DropReason, QueryAction, MAX_DATAGRAM_LEN};

fn client() -> SocketAddress {
    SocketAddress::v4(198, 51, 100, 4, 41000)
}

fn upstream(name: &str, last_octet: u8, protocol: Protocol) -> UpstreamConfig {
    UpstreamConfig {
        name: String::from(name),
        addr: SocketAddress::v4(10, 0, 0, last_octet, 53),
        protocol,
        priority: 1,
        timeout: 5,
    }
}

fn config() -> Config {
    let mut config = Config::default_config();
    config.upstreams = vec![
        upstream("A", 1, Protocol::UDP),
        upstream("B", 2, Protocol::TCP),
        upstream("C", 3, Protocol::UDP),
    ];
    config.cache.ttl_min = 120;
    config
}

fn server(config: Config) -> DnsServer {
    match DnsServer::new(config) {
        Ok(server) => server,
        Err(error) => panic!("a server can always be built: {}", error.message()),
    }
}

fn forwarded(action: QueryAction) -> (UpstreamRequest, ResolveCycle) {
    match action {
        QueryAction::Forward { request, cycle } => (request, cycle),
        other => panic!("expected a forward, got {:?}", other),
    }
}

/// Receives a query that misses the cache and starts its resolution.
fn miss(server: &mut DnsServer, query: &Vec<u8>, from: SocketAddress) -> QueryAction {
    match server.handle_query(query, from) {
        QueryAction::Resolve => {
            server.handle_upstream(query, from, ResolveCycle::new(), UpstreamEvent::Start)
        },
        other => panic!("expected a miss, got {:?}", other),
    }
}

fn replied(action: QueryAction) -> Vec<u8> {
    match action {
        QueryAction::Reply { response, failure } => {
            assert!(failure.is_none());
            response
        },
        other => panic!("expected a reply, got {:?}", other),
    }
}

fn metrics(server: &DnsServer) -> (u64, u64) {
    for stage in server.pipeline().middlewares() {
        if let Stage::Metrics(metrics) = stage {
            let snapshot = metrics.get_metrics();
            return (snapshot.total_requests, snapshot.total_responses);
        }
    }
    panic!("no metrics stage");
}

#[test]
fn a_query_is_resolved_once_and_then_answered_from_the_cache() {
    let mut server = server(config());
    let query = vec![0x12u8, 0x34, 1, 0, 0, 1, 0, 0, 0, 0, 0, 0];
    let answer = vec![0x12u8, 0x34, 0x81, 0x80, 0, 1, 0, 1, 0, 0, 0, 0, 42];

    // The cache is empty: the query goes to the first upstream.
    let (request, cycle) = forwarded(miss(&mut server, &query, client()));
    assert_eq!(request.upstream, 0);
    assert_eq!(request.addr, SocketAddress::v4(10, 0, 0, 1, 53));
    assert_eq!(request.transport, Transport::Datagram);
    assert_eq!(request.timeout, 5);
    assert_eq!(request.payload, query);

    // The upstream answers: the client gets the answer.
    let action = server.handle_upstream(&query, client(), cycle, UpstreamEvent::Reply(answer.clone()));
    assert_eq!(replied(action), answer);

    // The same query again: the answer comes from the cache, no upstream is asked.
    let action = server.handle_query(&query, client());
    assert_eq!(replied(action), answer);
    let other_client = SocketAddress::v4(198, 51, 100, 5, 41001);
    assert_eq!(replied(server.handle_query(&query, other_client)), answer);

    // Another query is a miss.
    let mut other = query.clone();
    other[1] = 0x35;
    let (request, _) = forwarded(miss(&mut server, &other, client()));
    assert_eq!(request.payload, other);

    // Four requests were seen; three responses went out.
    assert_eq!(metrics(&server), (4, 3));
}

#[test]
fn a_failed_upstream_makes_the_server_forward_to_the_next() {
    let mut server = server(config());
    let query = vec![1u8, 2, 3];
    let (first, cycle) = forwarded(miss(&mut server, &query, client()));
    assert_eq!(first.upstream, 0);
    let action =
        server.handle_upstream(&query, client(), cycle, UpstreamEvent::Failed(ResolverError::Timeout));
    let (second, cycle) = forwarded(action);
    assert_eq!(second.upstream, 1);
    assert_eq!(second.transport, Transport::Stream);
    assert_eq!(second.payload, vec![0, 3, 1, 2, 3]);
    assert_eq!(cycle.attempts(), 1);
    let action = server.handle_upstream(
        &query,
        client(),
        cycle,
        UpstreamEvent::Failed(ResolverError::NetworkError(String::from("reset"))),
    );
    let (third, cycle) = forwarded(action);
    assert_eq!(third.upstream, 2);
    let action = server.handle_upstream(&query, client(), cycle, UpstreamEvent::Reply(vec![9, 9]));
    assert_eq!(replied(action), vec![9, 9]);
    // The next miss starts with the upstream that answered.
    let (next, _) = forwarded(miss(&mut server, &vec![4u8, 5, 6], client()));
    assert_eq!(next.upstream, 2);
}

#[test]
fn a_query_that_no_upstream_answers_is_dropped() {
    let mut server = server(config());
    let query = vec![1u8, 2, 3];
    let (_, mut cycle) = forwarded(miss(&mut server, &query, client()));
    for expected in [1usize, 2] {
        let action = server.handle_upstream(
            &query,
            client(),
            cycle,
            UpstreamEvent::Failed(ResolverError::Timeout),
        );
        let (request, next_cycle) = forwarded(action);
        assert_eq!(request.upstream, expected);
        cycle = next_cycle;
    }
    let action =
        server.handle_upstream(&query, client(), cycle, UpstreamEvent::Failed(ResolverError::Timeout));
    assert!(matches!(
        action,
        QueryAction::Drop(DropReason::Unresolved(ResolverError::AllUpstreamsUnavailable))
    ));
    // Nothing was cached.
    let (request, _) = forwarded(miss(&mut server, &query, client()));
    assert_eq!(request.upstream, 0);
}

#[test]
fn a_server_without_upstreams_drops_every_miss() {
    let mut config = config();
    config.upstreams = vec![];
    let mut server = server(config);
    assert!(matches!(
        miss(&mut server, &vec![1u8, 2, 3], client()),
        QueryAction::Drop(DropReason::Unresolved(ResolverError::AllUpstreamsUnavailable))
    ));
}

#[test]
fn a_rate_limited_request_is_dropped_before_the_cache_and_the_resolver() {
    let mut config = config();
    config.middleware.rate_limiting.burst_size = 1;
    config.middleware.rate_limiting.requests_per_second = 1;
    let mut server = server(config);
    let query = vec![1u8, 2, 3];
    let (_, cycle) = forwarded(miss(&mut server, &query, client()));
    let _ = server.handle_upstream(&query, client(), cycle, UpstreamEvent::Reply(vec![7]));
    // The burst of one is spent: even a cached answer is not served.
    let action = server.handle_query(&query, client());
    assert!(matches!(action, QueryAction::Drop(DropReason::Rejected(MiddlewareError::RateLimited))));
    // Another client is served from the cache.
    let other_client = SocketAddress::v4(198, 51, 100, 9, 1234);
    assert_eq!(replied(server.handle_query(&query, other_client)), vec![7]);
    // The rejected request was logged but not counted.
    assert_eq!(metrics(&server).0, 2);
    match &server.pipeline().middlewares()[0] {
        Stage::Logging(logging) => {
            let requests: Vec<&LogRecord> =
                logging.records().iter().filter(|r| r.phase == LogPhase::Request).collect();
            assert_eq!(requests.len(), 3);
            assert_eq!(requests[1].client_addr, client());
            assert_eq!(requests[1].length, 3);
        },
        _ => panic!("the first stage logs"),
    }
}

#[test]
fn a_server_with_the_cache_disabled_resolves_every_query() {
    let mut config = config();
    config.cache.enabled = false;
    let mut server = server(config);
    let query = vec![1u8, 2, 3];
    for _ in 0..3 {
        let (request, cycle) = forwarded(miss(&mut server, &query, client()));
        assert_eq!(request.upstream, 0);
        let action = server.handle_upstream(&query, client(), cycle, UpstreamEvent::Reply(vec![7]));
        assert_eq!(replied(action), vec![7]);
    }
}

#[test]
fn the_stages_are_logging_rate_limiting_and_metrics_where_enabled() {
    let names = |config: Config| -> Vec<String> {
        server(config).pipeline().middlewares().iter().map(|s| String::from(s.name())).collect()
    };
    assert_eq!(
        names(config()),
        vec!["LoggingMiddleware", "RateLimitMiddleware", "MetricsMiddleware"]
    );
    let mut no_logging = config();
    no_logging.middleware.logging_enabled = false;
    assert_eq!(names(no_logging), vec!["RateLimitMiddleware", "MetricsMiddleware"]);
    let mut only_logging = config();
    only_logging.middleware.rate_limiting.enabled = false;
    only_logging.middleware.metrics_enabled = false;
    assert_eq!(names(only_logging), vec!["LoggingMiddleware"]);
    let mut none = config();
    none.middleware.logging_enabled = false;
    none.middleware.rate_limiting.enabled = false;
    none.middleware.metrics_enabled = false;
    assert!(names(none).is_empty());
}

#[test]
fn a_server_without_stages_still_serves() {
    let mut config = config();
    config.middleware.logging_enabled = false;
    config.middleware.rate_limiting.enabled = false;
    config.middleware.metrics_enabled = false;
    let mut server = server(config);
    let query = vec![1u8, 2, 3];
    let (_, cycle) = forwarded(miss(&mut server, &query, client()));
    let action = server.handle_upstream(&query, client(), cycle, UpstreamEvent::Reply(vec![7]));
    assert_eq!(replied(action), vec![7]);
    assert_eq!(replied(server.handle_query(&query, client())), vec![7]);
}

#[test]
fn the_server_listens_where_it_is_told() {
    let mut config = config();
    config.server.listen_addr = SocketAddress::v4(0, 0, 0, 0, 5353);
    let server = server(config);
    assert_eq!(server.listen_address(), SocketAddress::V4 { ip: 0, port: 5353 });
    assert_eq!(server.config().upstreams.len(), 3);
    assert!(server.config().server.udp_enabled);
    assert_eq!(MAX_DATAGRAM_LEN, 1500);
}

#[test]
fn server_errors_say_what_happened() {
    assert_eq!(
        DnsServerError::InitializationError(String::from("no config")).message(),
        "初始化错误: no config"
    );
    assert_eq!(
        DnsServerError::NetworkError(String::from("address in use")).message(),
        "网络错误: address in use"
    );
    assert_eq!(
        DnsServerError::RuntimeError(String::from("等待信号失败: interrupted")).message(),
        "运行时错误: 等待信号失败: interrupted"
    );
}

#[test]
fn the_server_hands_out_what_its_logging_stage_saw() {
    let mut server = server(config());
    let query = vec![1u8, 2, 3];
    let (_, cycle) = forwarded(miss(&mut server, &query, client()));
    let _ = server.handle_upstream(&query, client(), cycle, UpstreamEvent::Reply(vec![7, 7, 7, 7]));
    assert_eq!(
        server.take_log_records(),
        vec![
            LogRecord { phase: LogPhase::Request, client_addr: client(), length: 3 },
            LogRecord { phase: LogPhase::Response, client_addr: client(), length: 4 },
        ]
    );
    assert!(server.take_log_records().is_empty());
    // Taking the records changes nothing else: the answer is still cached.
    assert_eq!(replied(server.handle_query(&query, client())), vec![7, 7, 7, 7]);
}
