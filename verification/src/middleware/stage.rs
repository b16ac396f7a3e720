//! The built-in stages as one type, so that a pipeline can hold any of
//! them in any order.

use vstd::prelude::*;
use crate::addr::SocketAddress;
use crate::middleware::logging::{LogRecord, LoggingMiddleware, LoggingState};
use crate::middleware::metrics::MetricsMiddleware;
use crate::middleware::rate_limit::RateLimitMiddleware;
use crate::middleware::{
    request_phase, response_phase, runs_request_phase, runs_response_phase, DnsMessage,
    Middleware, MiddlewareError, MiddlewareOutcome, MiddlewareResult,
};

verus! {

/// One of the built-in stages.
pub enum Stage {
    Logging(LoggingMiddleware),
    RateLimit(RateLimitMiddleware),
    Metrics(MetricsMiddleware),
}

/// The observations that the logging stages among `stages` hold, stage by
/// stage.
pub open spec fn pending_records(stages: Seq<Stage>) -> Seq<LogRecord>
    decreases stages.len(),
{
    if stages.len() == 0 {
        Seq::empty()
    } else {
        pending_records(stages.drop_last()) + stages.last().records()
    }
}

impl Stage {
    /// The observations the stage holds: those of a logging stage, none
    /// for any other.
    pub open spec fn records(self) -> Seq<LogRecord> {
        match self {
            Stage::Logging(stage) => stage@.records,
            _ => Seq::empty(),
        }
    }

    /// Whether `after` is the stage `self` with its observations taken: a
    /// logging stage that holds none and is otherwise the same, or any
    /// other stage as it was.
    pub open spec fn emptied(self, after: Stage) -> bool {
        match (self, after) {
            (Stage::Logging(before), Stage::Logging(after)) => after@ == (LoggingState {
                records: Seq::empty(),
                ..before@
            }),
            (Stage::Logging(_), _) => false,
            _ => after == self,
        }
    }

    /// Hands out the observations the stage holds and leaves it with
    /// none.
    pub fn take_log_records(&mut self) -> (records: Vec<LogRecord>)
        requires
            old(self).wf(),
        ensures
            final(self).wf(),
            records@ == old(self).records(),
            old(self).emptied(*final(self)),
    {
        match self {
            Stage::Logging(stage) => stage.take_records(),
            _ => Vec::new(),
        }
    }
}

impl Middleware for Stage {
    open spec fn wf(&self) -> bool {
        match self {
            Stage::Logging(stage) => stage.wf(),
            Stage::RateLimit(stage) => stage.wf(),
            Stage::Metrics(stage) => stage.wf(),
        }
    }

    open spec fn request_effect(
        before: Self,
        request: Seq<u8>,
        client_addr: SocketAddress,
        after: Self,
        outcome: MiddlewareOutcome,
    ) -> bool {
        match (before, after) {
            (Stage::Logging(b), Stage::Logging(a)) => LoggingMiddleware::request_effect(
                b,
                request,
                client_addr,
                a,
                outcome,
            ),
            (Stage::RateLimit(b), Stage::RateLimit(a)) => RateLimitMiddleware::request_effect(
                b,
                request,
                client_addr,
                a,
                outcome,
            ),
            (Stage::Metrics(b), Stage::Metrics(a)) => MetricsMiddleware::request_effect(
                b,
                request,
                client_addr,
                a,
                outcome,
            ),
            _ => false,
        }
    }

    open spec fn response_effect(
        before: Self,
        request: Seq<u8>,
        response: Seq<u8>,
        client_addr: SocketAddress,
        after: Self,
        rewritten: Seq<u8>,
        failure: Option<MiddlewareError>,
    ) -> bool {
        match (before, after) {
            (Stage::Logging(b), Stage::Logging(a)) => LoggingMiddleware::response_effect(
                b,
                request,
                response,
                client_addr,
                a,
                rewritten,
                failure,
            ),
            (Stage::RateLimit(b), Stage::RateLimit(a)) => RateLimitMiddleware::response_effect(
                b,
                request,
                response,
                client_addr,
                a,
                rewritten,
                failure,
            ),
            (Stage::Metrics(b), Stage::Metrics(a)) => MetricsMiddleware::response_effect(
                b,
                request,
                response,
                client_addr,
                a,
                rewritten,
                failure,
            ),
            _ => false,
        }
    }

    open spec fn named(&self, name: Seq<char>) -> bool {
        match self {
            Stage::Logging(stage) => stage.named(name),
            Stage::RateLimit(stage) => stage.named(name),
            Stage::Metrics(stage) => stage.named(name),
        }
    }

    fn handle_request(&mut self, request: &DnsMessage, client_addr: SocketAddress) -> (result:
        MiddlewareResult) {
        match self {
            Stage::Logging(stage) => stage.handle_request(request, client_addr),
            Stage::RateLimit(stage) => stage.handle_request(request, client_addr),
            Stage::Metrics(stage) => stage.handle_request(request, client_addr),
        }
    }

    fn handle_response(
        &mut self,
        request: &DnsMessage,
        response: &mut DnsMessage,
        client_addr: SocketAddress,
    ) -> (verdict: Result<(), MiddlewareError>) {
        match self {
            Stage::Logging(stage) => stage.handle_response(request, response, client_addr),
            Stage::RateLimit(stage) => stage.handle_response(request, response, client_addr),
            Stage::Metrics(stage) => stage.handle_response(request, response, client_addr),
        }
    }

    fn name(&self) -> (name: &str) {
        match self {
            Stage::Logging(stage) => stage.name(),
            Stage::RateLimit(stage) => stage.name(),
            Stage::Metrics(stage) => stage.name(),
        }
    }
}

/// No built-in stage answers a request itself, and the only reason any of
/// them rejects one for is the rate limit: a request phase over built-in
/// stages lets the request continue or rejects it as rate limited.
pub proof fn lemma_builtin_stages_only_rate_limit(
    before: Seq<Stage>,
    request: Seq<u8>,
    client_addr: SocketAddress,
    after: Seq<Stage>,
    outcome: MiddlewareOutcome,
)
    requires
        runs_request_phase(before, request, client_addr, after, outcome),
    ensures
        outcome is Continue || outcome == MiddlewareOutcome::Rejected(MiddlewareError::RateLimited),
{
    let stopped_at = choose|stopped_at: int| #[trigger]
        request_phase(before, request, client_addr, after, outcome, stopped_at);
    if stopped_at < before.len() {
        assert(Stage::request_effect(
            before[stopped_at],
            request,
            client_addr,
            after[stopped_at],
            outcome,
        ));
    }
}

/// No built-in stage rewrites a response or fails on one: a response phase
/// over built-in stages leaves the response as it was and ends without an
/// error.
pub proof fn lemma_builtin_stages_pass_responses(
    before: Seq<Stage>,
    request: Seq<u8>,
    response: Seq<u8>,
    client_addr: SocketAddress,
    after: Seq<Stage>,
    rewritten: Seq<u8>,
    failure: Option<MiddlewareError>,
)
    requires
        runs_response_phase(before, request, response, client_addr, after, rewritten, failure),
    ensures
        rewritten == response,
        failure is None,
{
    let trace = choose|trace: Seq<Seq<u8>>| #[trigger]
        response_phase(before, request, response, client_addr, after, rewritten, failure, trace);
    let ran = trace.len() - 1;
    lemma_trace_is_constant(
        before,
        request,
        response,
        client_addr,
        after,
        rewritten,
        failure,
        trace,
        ran,
    );
    if ran > 0 {
        assert(Stage::response_effect(
            before[ran - 1],
            request,
            trace[ran - 1],
            client_addr,
            after[ran - 1],
            trace[ran],
            failure,
        ));
    }
}

/// Through a response phase over built-in stages the response stays what
/// it was.
proof fn lemma_trace_is_constant(
    before: Seq<Stage>,
    request: Seq<u8>,
    response: Seq<u8>,
    client_addr: SocketAddress,
    after: Seq<Stage>,
    rewritten: Seq<u8>,
    failure: Option<MiddlewareError>,
    trace: Seq<Seq<u8>>,
    upto: int,
)
    requires
        response_phase(before, request, response, client_addr, after, rewritten, failure, trace),
        0 <= upto <= trace.len() - 1,
    ensures
        trace[upto] == response,
    decreases upto,
{
    if upto > 0 {
        lemma_trace_is_constant(
            before,
            request,
            response,
            client_addr,
            after,
            rewritten,
            failure,
            trace,
            upto - 1,
        );
        let ran = trace.len() - 1;
        assert(Stage::response_effect(
            before[upto - 1],
            request,
            trace[upto - 1],
            client_addr,
            after[upto - 1],
            trace[upto - 1 + 1],
            if upto - 1 + 1 < ran {
                None
            } else {
                failure
            },
        ));
    }
}

} // verus!
