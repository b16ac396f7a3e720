use dns_forwarder::addr::SocketAddress;
use dns_forwarder::middleware::logging::{LogPhase, LogRecord, LoggingMiddleware};
use dns_forwarder::middleware::metrics::{MetricsMiddleware, MetricsSnapshot};
use dns_forwarder::middleware::rate_limit::RateLimitMiddleware;
use dns_forwarder::middleware::stage::Stage;
use dns_forwarder::middleware::{
    DnsMessage, Middleware, MiddlewareError, MiddlewarePipeline, MiddlewareResult,
};

fn client() -> SocketAddress {
    SocketAddress::v4(192, 0, 2, 7, 53000)
}

fn requests_seen(stage: &Stage) -> u64 {
    match stage {
        Stage::Metrics(metrics) => metrics.get_metrics().total_requests,
        _ => panic!("not a metrics stage"),
    }
}

fn responses_seen(stage: &Stage) -> u64 {
    match stage {
        Stage::Metrics(metrics) => metrics.get_metrics().total_responses,
        _ => panic!("not a metrics stage"),
    }
}

fn records(stage: &Stage) -> Vec<LogRecord> {
    match stage {
        Stage::Logging(logging) => logging.records().clone(),
        _ => panic!("not a logging stage"),
    }
}

/// A stage that answers, rejects or rewrites as it is told, and counts its calls.
struct Scripted {
    on_request: u8,
    fail_response: bool,
    suffix: u8,
    requests: usize,
    responses: usize,
}

impl Scripted {
    fn passing(suffix: u8) -> Scripted {
        Scripted { on_request: 0, fail_response: false, suffix, requests: 0, responses: 0 }
    }
}

impl Middleware for Scripted {
    fn handle_request(&mut self, request: &DnsMessage, _client_addr: SocketAddress) -> MiddlewareResult {
        self.requests += 1;
        match self.on_request {
            0 => Ok(None),
            1 => Ok(Some(vec![self.suffix, request.len() as u8])),
            2 => Err(MiddlewareError::Blocked),
            _ => Err(MiddlewareError::InternalError(format!("stage {}", self.suffix))),
        }
    }

    fn handle_response(
        &mut self,
        _request: &DnsMessage,
        response: &mut DnsMessage,
        _client_addr: SocketAddress,
    ) -> Result<(), MiddlewareError> {
        self.responses += 1;
        response.push(self.suffix);
        if self.fail_response {
            Err(MiddlewareError::InternalError(format!("stage {}", self.suffix)))
        } else {
            Ok(())
        }
    }

    fn name(&self) -> &str {
        "Scripted"
    }
}

#[test]
fn a_rate_limited_request_is_logged_but_not_counted() {
    let mut pipeline: MiddlewarePipeline<Stage> = MiddlewarePipeline::new();
    pipeline.add_middleware(Stage::Logging(LoggingMiddleware::new(true)));
    pipeline.add_middleware(Stage::RateLimit(RateLimitMiddleware::new(true, 1, 0)));
    pipeline.add_middleware(Stage::Metrics(MetricsMiddleware::new(true)));
    let request = vec![1u8, 2, 3, 4];
    let result = pipeline.handle_request(&request, client());
    assert!(matches!(result, Err(MiddlewareError::RateLimited)));
    let stages = pipeline.middlewares();
    assert_eq!(
        records(&stages[0]),
        vec![LogRecord { phase: LogPhase::Request, client_addr: client(), length: 4 }]
    );
    assert_eq!(requests_seen(&stages[2]), 0);
}

#[test]
fn an_admitted_request_passes_every_stage_in_order() {
    let mut pipeline: MiddlewarePipeline<Stage> = MiddlewarePipeline::new();
    pipeline.add_middleware(Stage::Logging(LoggingMiddleware::new(true)));
    pipeline.add_middleware(Stage::RateLimit(RateLimitMiddleware::new(true, 1, 2)));
    pipeline.add_middleware(Stage::Metrics(MetricsMiddleware::new(true)));
    let request = vec![1u8, 2, 3];
    assert!(matches!(pipeline.handle_request(&request, client()), Ok(None)));
    assert!(matches!(pipeline.handle_request(&request, client()), Ok(None)));
    assert!(matches!(
        pipeline.handle_request(&request, client()),
        Err(MiddlewareError::RateLimited)
    ));
    let stages = pipeline.middlewares();
    assert_eq!(records(&stages[0]).len(), 3);
    assert_eq!(requests_seen(&stages[2]), 2);
    let names: Vec<&str> = stages.iter().map(|stage| stage.name()).collect();
    assert_eq!(names, vec!["LoggingMiddleware", "RateLimitMiddleware", "MetricsMiddleware"]);
}

#[test]
fn the_first_stage_that_answers_or_rejects_ends_the_request_phase() {
    for verdict in 1u8..=3 {
        let mut pipeline: MiddlewarePipeline<Scripted> = MiddlewarePipeline::new();
        pipeline.add_middleware(Scripted::passing(1));
        pipeline.add_middleware(Scripted { on_request: verdict, ..Scripted::passing(2) });
        pipeline.add_middleware(Scripted { on_request: 1, ..Scripted::passing(3) });
        pipeline.add_middleware(Scripted::passing(4));
        let result = pipeline.handle_request(&vec![0u8; 9], client());
        match verdict {
            1 => assert_eq!(result.unwrap(), Some(vec![2, 9])),
            2 => assert!(matches!(result, Err(MiddlewareError::Blocked))),
            _ => match result {
                Err(MiddlewareError::InternalError(detail)) => assert_eq!(detail, "stage 2"),
                _ => panic!("the third verdict is an internal error"),
            },
        }
        let calls: Vec<usize> = pipeline.middlewares().iter().map(|s| s.requests).collect();
        assert_eq!(calls, vec![1, 1, 0, 0]);
    }
}

#[test]
fn an_empty_pipeline_lets_everything_through() {
    let mut pipeline: MiddlewarePipeline<Stage> = MiddlewarePipeline::default();
    assert!(matches!(pipeline.handle_request(&vec![1], client()), Ok(None)));
    let mut response = vec![9u8, 9];
    assert!(matches!(pipeline.handle_response(&vec![1], &mut response, client()), Ok(())));
    assert_eq!(response, vec![9, 9]);
    assert_eq!(pipeline.middlewares().len(), 0);
}

#[test]
fn every_stage_rewrites_the_response_in_registration_order() {
    let mut pipeline: MiddlewarePipeline<Scripted> = MiddlewarePipeline::new();
    for suffix in [10u8, 20, 30] {
        pipeline.add_middleware(Scripted::passing(suffix));
    }
    let mut response = vec![1u8];
    assert!(matches!(pipeline.handle_response(&vec![], &mut response, client()), Ok(())));
    assert_eq!(response, vec![1, 10, 20, 30]);
}

#[test]
fn a_failing_stage_ends_the_response_phase_and_earlier_rewrites_stay() {
    let mut pipeline: MiddlewarePipeline<Scripted> = MiddlewarePipeline::new();
    pipeline.add_middleware(Scripted::passing(10));
    pipeline.add_middleware(Scripted { fail_response: true, ..Scripted::passing(20) });
    pipeline.add_middleware(Scripted::passing(30));
    let mut response = vec![1u8];
    match pipeline.handle_response(&vec![], &mut response, client()) {
        Err(MiddlewareError::InternalError(detail)) => assert_eq!(detail, "stage 20"),
        _ => panic!("the second stage fails"),
    }
    assert_eq!(response, vec![1, 10, 20]);
    let calls: Vec<usize> = pipeline.middlewares().iter().map(|s| s.responses).collect();
    assert_eq!(calls, vec![1, 1, 0]);
}

#[test]
fn the_built_in_stages_leave_responses_alone() {
    let mut pipeline: MiddlewarePipeline<Stage> = MiddlewarePipeline::new();
    pipeline.add_middleware(Stage::Metrics(MetricsMiddleware::new(true)));
    pipeline.add_middleware(Stage::RateLimit(RateLimitMiddleware::new(true, 1, 0)));
    pipeline.add_middleware(Stage::Logging(LoggingMiddleware::new(true)));
    let mut response = vec![7u8, 8, 9];
    assert!(matches!(pipeline.handle_response(&vec![1, 2], &mut response, client()), Ok(())));
    assert_eq!(response, vec![7, 8, 9]);
    let stages = pipeline.middlewares();
    assert_eq!(responses_seen(&stages[0]), 1);
    assert_eq!(
        records(&stages[2]),
        vec![LogRecord { phase: LogPhase::Response, client_addr: client(), length: 3 }]
    );
}

#[test]
fn the_logging_stage_records_and_hands_out_what_it_saw() {
    let mut logging = LoggingMiddleware::new(true);
    let other = SocketAddress::V6 { ip: 0xfe80 << 112 | 1, port: 53, flowinfo: 0, scope_id: 2 };
    assert!(matches!(logging.handle_request(&vec![0u8; 29], client()), Ok(None)));
    let mut response = vec![0u8; 45];
    assert!(matches!(logging.handle_response(&vec![0u8; 29], &mut response, other), Ok(())));
    assert_eq!(response, vec![0u8; 45]);
    let seen = logging.take_records();
    assert_eq!(
        seen,
        vec![
            LogRecord { phase: LogPhase::Request, client_addr: client(), length: 29 },
            LogRecord { phase: LogPhase::Response, client_addr: other, length: 45 },
        ]
    );
    assert!(logging.records().is_empty());
    assert_eq!(logging.name(), "LoggingMiddleware");
}

#[test]
fn a_disabled_logging_stage_records_nothing() {
    let mut logging = LoggingMiddleware::new(false);
    assert!(matches!(logging.handle_request(&vec![1, 2], client()), Ok(None)));
    let mut response = vec![3u8];
    assert!(matches!(logging.handle_response(&vec![1, 2], &mut response, client()), Ok(())));
    assert!(logging.records().is_empty());
    assert!(logging.take_records().is_empty());
}

#[test]
fn the_metrics_stage_counts_requests_and_responses() {
    let mut metrics = MetricsMiddleware::new(true);
    assert_eq!(
        metrics.get_metrics(),
        MetricsSnapshot {
            total_requests: 0,
            total_responses: 0,
            blocked_requests: 0,
            rate_limited_requests: 0
        }
    );
    for _ in 0..3 {
        assert!(matches!(metrics.handle_request(&vec![1], client()), Ok(None)));
    }
    let mut response = vec![5u8, 6];
    for _ in 0..2 {
        assert!(matches!(metrics.handle_response(&vec![1], &mut response, client()), Ok(())));
    }
    assert_eq!(response, vec![5, 6]);
    assert_eq!(
        metrics.get_metrics(),
        MetricsSnapshot {
            total_requests: 3,
            total_responses: 2,
            blocked_requests: 0,
            rate_limited_requests: 0
        }
    );
    assert_eq!(metrics.name(), "MetricsMiddleware");
}

#[test]
fn a_disabled_metrics_stage_counts_nothing() {
    let mut metrics = MetricsMiddleware::new(false);
    assert!(matches!(metrics.handle_request(&vec![1], client()), Ok(None)));
    let mut response = vec![];
    assert!(matches!(metrics.handle_response(&vec![1], &mut response, client()), Ok(())));
    let snapshot = metrics.get_metrics();
    assert_eq!(snapshot.total_requests, 0);
    assert_eq!(snapshot.total_responses, 0);
}

#[test]
fn the_metrics_report_has_a_line_for_every_counter() {
    let mut metrics = MetricsMiddleware::new(true);
    for _ in 0..12 {
        let _ = metrics.handle_request(&vec![1], client());
    }
    let mut response = vec![];
    for _ in 0..7 {
        let _ = metrics.handle_response(&vec![1], &mut response, client());
    }
    assert_eq!(
        metrics.print_metrics(),
        vec![
            "=== DNS服务器指标 ===",
            "总请求数: 12",
            "总响应数: 7",
            "被阻止请求数: 0",
            "被限流请求数: 0",
            "==================",
        ]
    );
}

#[test]
fn a_stage_of_any_kind_answers_through_the_enum() {
    let mut stage = Stage::Metrics(MetricsMiddleware::new(true));
    assert!(matches!(stage.handle_request(&vec![1], client()), Ok(None)));
    assert_eq!(requests_seen(&stage), 1);
    assert_eq!(stage.name(), "MetricsMiddleware");
    let mut stage = Stage::RateLimit(RateLimitMiddleware::new(true, 5, 1));
    assert!(matches!(stage.handle_request(&vec![1], client()), Ok(None)));
    assert!(matches!(stage.handle_request(&vec![1], client()), Err(MiddlewareError::RateLimited)));
    assert_eq!(stage.name(), "RateLimitMiddleware");
    let mut stage = Stage::Logging(LoggingMiddleware::new(true));
    let mut response = vec![1u8, 2];
    assert!(matches!(stage.handle_response(&vec![], &mut response, client()), Ok(())));
    assert_eq!(records(&stage).len(), 1);
    assert_eq!(stage.name(), "LoggingMiddleware");
}

#[test]
fn middleware_errors_say_what_happened() {
    assert_eq!(MiddlewareError::RateLimited.message(), "Request rate limited");
    assert_eq!(MiddlewareError::Blocked.message(), "Request blocked by filter");
    assert_eq!(
        MiddlewareError::InternalError(String::from("disk on fire")).message(),
        "Internal error: disk on fire"
    );
    assert_eq!(MiddlewareError::InternalError(String::new()).message(), "Internal error: ");
}

#[test]
fn the_pipeline_hands_out_the_records_of_its_logging_stages() {
    let mut pipeline: MiddlewarePipeline<Stage> = MiddlewarePipeline::new();
    pipeline.add_middleware(Stage::Logging(LoggingMiddleware::new(true)));
    pipeline.add_middleware(Stage::Metrics(MetricsMiddleware::new(true)));
    pipeline.add_middleware(Stage::Logging(LoggingMiddleware::new(true)));
    let _ = pipeline.handle_request(&vec![1u8, 2, 3], client());
    let mut response = vec![4u8, 5];
    let _ = pipeline.handle_response(&vec![1u8, 2, 3], &mut response, client());
    let request = LogRecord { phase: LogPhase::Request, client_addr: client(), length: 3 };
    let reply = LogRecord { phase: LogPhase::Response, client_addr: client(), length: 2 };
    assert_eq!(pipeline.take_log_records(), vec![request, reply, request, reply]);
    assert!(pipeline.take_log_records().is_empty());
    // The other stages keep what they have.
    assert_eq!(requests_seen(&pipeline.middlewares()[1]), 1);
    let mut stage = Stage::Metrics(MetricsMiddleware::new(true));
    assert!(stage.take_log_records().is_empty());
}
