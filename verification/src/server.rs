//! The server core: what becomes of each query.
//!
//! The core owns the pipeline, the resolver and the cache and decides, for
//! every datagram that comes in and every upstream exchange that ends,
//! what is to be done next. It does no I/O: the caller receives, sends and
//! talks to upstreams, and reports back.

use vstd::prelude::*;
use crate::addr::SocketAddress;
use crate::cache::{bytes_of, CacheState, DnsCache};
use crate::clock::{elapsed_between, NANOS_PER_SEC};
use crate::middleware::stage::{lemma_builtin_stages_only_rate_limit, lemma_builtin_stages_pass_responses};
use crate::config::{Config, MiddlewareConfig, UpstreamConfig};
use crate::middleware::logging::{LogRecord, LoggingMiddleware, LoggingState};
use crate::middleware::metrics::{MetricsMiddleware, MetricsSnapshot, MetricsState};
use crate::middleware::rate_limit::{RateLimitMiddleware, RateLimiterState};
use crate::middleware::stage::{pending_records, Stage};
use crate::middleware::{
    outcome_of, runs_request_phase, runs_response_phase, Middleware, MiddlewareError,
    MiddlewareOutcome, MiddlewarePipeline,
};
use crate::resolver::{
    request_for, DnsResolver, ResolveAction, ResolveCycle, ResolveDecision, ResolveInput,
    ResolveStep, ResolverError, ResolverState, UpstreamEvent, UpstreamRequest,
};

verus! {

/// A raw DNS message.
pub type DnsMessage = Vec<u8>;

/// The largest datagram a client may send: one Ethernet frame's worth.
pub const MAX_DATAGRAM_LEN: usize = 1500;

/// Why the server could not be started or had to stop.
#[derive(Debug)]
pub enum DnsServerError {
    InitializationError(String),
    NetworkError(String),
    RuntimeError(String),
}

impl DnsServerError {
    /// The text that describes the error.
    pub open spec fn spec_message(&self) -> Seq<char> {
        match self {
            DnsServerError::InitializationError(detail) => "初始化错误: "@ + detail@,
            DnsServerError::NetworkError(detail) => "网络错误: "@ + detail@,
            DnsServerError::RuntimeError(detail) => "运行时错误: "@ + detail@,
        }
    }

    /// Describes the error in words.
    pub fn message(&self) -> (text: String)
        ensures
            text@ == self.spec_message(),
    {
        match self {
            DnsServerError::InitializationError(detail) => {
                let mut text = "初始化错误: ".to_owned();
                text.append(detail.as_str());
                text
            },
            DnsServerError::NetworkError(detail) => {
                let mut text = "网络错误: ".to_owned();
                text.append(detail.as_str());
                text
            },
            DnsServerError::RuntimeError(detail) => {
                let mut text = "运行时错误: ".to_owned();
                text.append(detail.as_str());
                text
            },
        }
    }
}

/// Why a query gets no reply.
#[derive(Debug)]
pub enum DropReason {
    /// A middleware stage rejected the request.
    Rejected(MiddlewareError),
    /// No upstream answered.
    Unresolved(ResolverError),
}

/// What the caller is to do about a query.
#[derive(Debug)]
pub enum QueryAction {
    /// Send `response` to the client. `failure` is the error that ended
    /// the response phase early, where one did; the response is sent all
    /// the same.
    Reply { response: DnsMessage, failure: Option<MiddlewareError> },
    /// Send nothing.
    Drop(DropReason),
    /// The cache holds no live answer: the query has to be resolved. Once
    /// the resolver is free, report `UpstreamEvent::Start` with a new
    /// cycle.
    Resolve,
    /// Perform the exchange `request` and report how it went, handing
    /// `cycle` back.
    Forward { request: UpstreamRequest, cycle: ResolveCycle },
}

/// The server core as a mathematical value.
pub ghost struct ServerState {
    pub pipeline: Seq<Stage>,
    pub resolver: ResolverState,
    pub cache: CacheState,
}

impl ServerState {
    /// Whether `action` is a reply of `response` after a response phase
    /// that took the pipeline from `pipeline` to `after`.
    pub open spec fn replies(
        pipeline: Seq<Stage>,
        query: Seq<u8>,
        response: Seq<u8>,
        client_addr: SocketAddress,
        after: Seq<Stage>,
        action: QueryAction,
    ) -> bool {
        action matches QueryAction::Reply { response: sent, failure } && runs_response_phase(
            pipeline,
            query,
            response,
            client_addr,
            after,
            sent@,
            failure,
        )
    }

    /// Whether `action` carries out what the resolver decided in `step`,
    /// short of an answer: the query is forwarded to the upstream the
    /// resolver names or, where it names none, dropped.
    pub open spec fn forwards(
        step: ResolveStep,
        upstreams: Seq<UpstreamConfig>,
        query: Seq<u8>,
        action: QueryAction,
    ) -> bool {
        match step.decision {
            ResolveDecision::Query(index) => action matches QueryAction::Forward { request, cycle }
                && request_for(request, index, upstreams[index], query) && cycle@ == step.attempts,
            ResolveDecision::GiveUp => action matches QueryAction::Drop(
                DropReason::Unresolved(reason),
            ) && reason == ResolverError::AllUpstreamsUnavailable,
            ResolveDecision::Answer(_) => false,
        }
    }

    /// What becomes of a query once the request phase has left the
    /// pipeline as `admitted` with `outcome`.
    ///
    /// A stage that answered the request makes its answer the reply; a
    /// stage that rejected it has the query dropped. A request that passed
    /// is looked up in the cache as of `now`: a live entry goes through
    /// the response phase and becomes the reply, and a miss sends the
    /// query on to be resolved. The cache is only read and the resolver is
    /// not touched.
    pub open spec fn decides(
        self,
        query: Seq<u8>,
        client_addr: SocketAddress,
        now: u128,
        admitted: Seq<Stage>,
        outcome: MiddlewareOutcome,
        after: ServerState,
        action: QueryAction,
    ) -> bool {
        &&& after.cache == self.cache
        &&& after.resolver == self.resolver
        &&& match outcome {
            MiddlewareOutcome::ShortCircuit(response) => {
                &&& after.pipeline == admitted
                &&& action matches QueryAction::Reply { response: sent, failure }
                &&& sent@ == response
                &&& failure is None
            },
            MiddlewareOutcome::Rejected(reason) => {
                &&& after.pipeline == admitted
                &&& action matches QueryAction::Drop(DropReason::Rejected(given))
                &&& given == reason
            },
            MiddlewareOutcome::Continue => match self.cache.lookup(query, now) {
                Some(cached) => Self::replies(
                    admitted,
                    query,
                    cached,
                    client_addr,
                    after.pipeline,
                    action,
                ),
                None => after.pipeline == admitted && action is Resolve,
            },
        }
    }

    /// Whether a server in state `self` that receives `query` from
    /// `client_addr` and looks into its cache at `now` may end in state
    /// `after` having decided on `action`: the request phase of the
    /// pipeline runs, and the query goes the way its outcome sends it.
    pub open spec fn receives(
        self,
        query: Seq<u8>,
        client_addr: SocketAddress,
        now: u128,
        after: ServerState,
        action: QueryAction,
    ) -> bool {
        exists|admitted: Seq<Stage>, outcome: MiddlewareOutcome|
            {
                &&& #[trigger] runs_request_phase(
                    self.pipeline,
                    query,
                    client_addr,
                    admitted,
                    outcome,
                )
                &&& self.decides(query, client_addr, now, admitted, outcome, after, action)
            }
    }

    /// Whether a server in state `self` that is told at `now` what has
    /// happened in the resolution of `query`, after `attempts` failed
    /// attempts, may end in state `after` having decided on `action`.
    ///
    /// The resolver takes its step. Where that settles the query with an
    /// answer, the answer is stored in the cache, goes through the
    /// response phase and becomes the reply. Otherwise the query is
    /// forwarded to the upstream the resolver names or, where it names
    /// none, dropped.
    pub open spec fn hears(
        self,
        query: Seq<u8>,
        client_addr: SocketAddress,
        attempts: nat,
        input: ResolveInput,
        now: u128,
        after: ServerState,
        action: QueryAction,
    ) -> bool {
        let step = self.resolver.step(attempts, input);
        &&& after.resolver == step.state
        &&& match step.decision {
            ResolveDecision::Answer(response) => {
                &&& self.cache.stores(query, response, None, now, after.cache)
                &&& Self::replies(
                    self.pipeline,
                    query,
                    response,
                    client_addr,
                    after.pipeline,
                    action,
                )
            },
            _ => {
                &&& after.cache == self.cache
                &&& after.pipeline == self.pipeline
                &&& Self::forwards(step, self.resolver.upstreams, query, action)
            },
        }
    }

    /// Whether `handle_query` may take the server from `self` to
    /// `after` with `action`: it does so with the cache read at some
    /// moment.
    pub open spec fn may_receive(
        self,
        query: Seq<u8>,
        client_addr: SocketAddress,
        after: ServerState,
        action: QueryAction,
    ) -> bool {
        exists|now: u128| #[trigger] self.receives(query, client_addr, now, after, action)
    }

    /// Whether `handle_upstream` may take the server from `self` to
    /// `after` with `action`: it does so with the cache written at some
    /// moment.
    pub open spec fn may_hear(
        self,
        query: Seq<u8>,
        client_addr: SocketAddress,
        attempts: nat,
        input: ResolveInput,
        after: ServerState,
        action: QueryAction,
    ) -> bool {
        exists|now: u128| #[trigger]
            self.hears(query, client_addr, attempts, input, now, after, action)
    }
}

/// An answer that an upstream gave is served from the cache for as long as
/// it lives. After the server has heard an upstream's reply to `query`
/// and stored it at `stored_at`, a request for the same query that is
/// received no more than the cache's shortest time to live later is not
/// sent on to be resolved: the resolver is left alone, and the client gets
/// the bytes the upstream sent, unless the rate limiter turns the request
/// down.
pub proof fn lemma_cached_answer_needs_no_upstream(
    first: ServerState,
    query: Seq<u8>,
    asker: SocketAddress,
    attempts: nat,
    reply: Seq<u8>,
    stored_at: u128,
    second: ServerState,
    first_action: QueryAction,
    next_asker: SocketAddress,
    asked_at: u128,
    third: ServerState,
    second_action: QueryAction,
)
    requires
        first.cache.enabled,
        first.hears(
            query,
            asker,
            attempts,
            ResolveInput::Reply(reply),
            stored_at,
            second,
            first_action,
        ),
        second.receives(query, next_asker, asked_at, third, second_action),
        elapsed_between(stored_at, asked_at) <= first.cache.min_ttl as nat * NANOS_PER_SEC as nat,
    ensures
        first_action matches QueryAction::Reply { response, failure } && response@ == reply
            && failure is None,
        !(second_action is Forward),
        !(second_action is Resolve),
        third.resolver == second.resolver,
        second_action matches QueryAction::Reply { response, failure } ==> response@ == reply
            && failure is None,
        second_action matches QueryAction::Drop(reason) ==> reason == DropReason::Rejected(
            MiddlewareError::RateLimited,
        ),
{
    if let QueryAction::Reply { response, failure } = first_action {
        lemma_builtin_stages_pass_responses(
            first.pipeline,
            query,
            reply,
            asker,
            second.pipeline,
            response@,
            failure,
        );
    }
    crate::cache::lemma_put_then_get(
        first.cache,
        query,
        reply,
        None,
        stored_at,
        second.cache,
        asked_at,
    );
    let (admitted, outcome) = choose|admitted: Seq<Stage>, outcome: MiddlewareOutcome|
        {
            &&& #[trigger] runs_request_phase(
                second.pipeline,
                query,
                next_asker,
                admitted,
                outcome,
            )
            &&& second.decides(query, next_asker, asked_at, admitted, outcome, third, second_action)
        };
    lemma_builtin_stages_only_rate_limit(second.pipeline, query, next_asker, admitted, outcome);
    if outcome is Continue {
        if let QueryAction::Reply { response, failure } = second_action {
            lemma_builtin_stages_pass_responses(
                admitted,
                query,
                reply,
                next_asker,
                third.pipeline,
                response@,
                failure,
            );
        }
    }
}

/// The stages a server is started with: logging, rate limiting and
/// metrics, in this order, each where it is enabled.
pub open spec fn configured_stages(stages: Seq<Stage>, config: MiddlewareConfig) -> bool {
    let logging: int = if config.logging_enabled {
        1
    } else {
        0
    };
    let limiting: int = if config.rate_limiting.enabled {
        1
    } else {
        0
    };
    let metrics: int = if config.metrics_enabled {
        1
    } else {
        0
    };
    &&& stages.len() == logging + limiting + metrics
    &&& config.logging_enabled ==> fresh_logging(stages[0])
    &&& config.rate_limiting.enabled ==> fresh_rate_limit(
        stages[logging],
        config.rate_limiting.requests_per_second,
        config.rate_limiting.burst_size,
    )
    &&& config.metrics_enabled ==> fresh_metrics(stages[logging + limiting])
}

/// Whether `stage` is an enabled logging stage that has seen nothing yet.
pub open spec fn fresh_logging(stage: Stage) -> bool {
    stage matches Stage::Logging(logging) && logging@ == (LoggingState {
        enabled: true,
        records: Seq::empty(),
    })
}

/// Whether `stage` is an enabled rate limiter that has seen no client yet.
pub open spec fn fresh_rate_limit(stage: Stage, requests_per_second: u32, burst_size: u32) -> bool {
    stage matches Stage::RateLimit(limiter) && limiter@ == (RateLimiterState {
        enabled: true,
        max_tokens: burst_size,
        refill_rate: requests_per_second,
        buckets: Map::empty(),
    })
}

/// Whether `stage` is an enabled metrics stage with every counter at zero.
pub open spec fn fresh_metrics(stage: Stage) -> bool {
    stage matches Stage::Metrics(metrics) && metrics@ == (MetricsState {
        enabled: true,
        counters: MetricsSnapshot {
            total_requests: 0,
            total_responses: 0,
            blocked_requests: 0,
            rate_limited_requests: 0,
        },
    })
}

/// The server core.
pub struct DnsServer {
    config: Config,
    middleware_pipeline: MiddlewarePipeline<Stage>,
    resolver: DnsResolver,
    cache: DnsCache,
}

impl View for DnsServer {
    type V = ServerState;

    closed spec fn view(&self) -> ServerState {
        ServerState {
            pipeline: self.middleware_pipeline@,
            resolver: self.resolver@,
            cache: self.cache@,
        }
    }
}

impl DnsServer {
    /// The invariant of the server: those of its parts.
    pub closed spec fn wf(&self) -> bool {
        &&& self.middleware_pipeline.wf()
        &&& self.resolver.wf()
        &&& self.cache.wf()
        &&& self.config.cache.enabled == self.cache@.enabled
    }

    /// The settings the server was started with.
    pub closed spec fn spec_config(&self) -> Config {
        self.config
    }

    /// A server with the stages, the upstreams and the cache that `config`
    /// asks for. Every server can be built: the result is never an error.
    pub fn new(config: Config) -> (server: Result<DnsServer, DnsServerError>)
        ensures
            server matches Ok(core) && {
                &&& core.wf()
                &&& core.spec_config() == config
                &&& configured_stages(core@.pipeline, config.middleware)
                &&& core@.resolver == (ResolverState { upstreams: config.upstreams@, cursor: 0 })
                &&& core@.cache == (CacheState {
                    enabled: config.cache.enabled,
                    max_size: config.cache.max_size,
                    min_ttl: config.cache.ttl_min,
                    max_ttl: config.cache.ttl_max,
                    entries: Map::empty(),
                })
            },
    {
        let mut middleware_pipeline: MiddlewarePipeline<Stage> = MiddlewarePipeline::new();
        if config.middleware.logging_enabled {
            middleware_pipeline.add_middleware(Stage::Logging(LoggingMiddleware::new(true)));
        }
        if config.middleware.rate_limiting.enabled {
            middleware_pipeline.add_middleware(
                Stage::RateLimit(
                    RateLimitMiddleware::new(
                        true,
                        config.middleware.rate_limiting.requests_per_second,
                        config.middleware.rate_limiting.burst_size,
                    ),
                ),
            );
        }
        if config.middleware.metrics_enabled {
            middleware_pipeline.add_middleware(Stage::Metrics(MetricsMiddleware::new(true)));
        }
        let resolver = DnsResolver::new(copy_upstreams(&config.upstreams));
        let cache = DnsCache::new(&config.cache);
        Ok(DnsServer { config, middleware_pipeline, resolver, cache })
    }

    /// The address the server is to listen on.
    pub fn listen_address(&self) -> (addr: SocketAddress)
        ensures
            addr == self.spec_config().server.listen_addr,
    {
        self.config.server.listen_addr
    }

    /// The settings the server was started with.
    pub fn config(&self) -> (config: &Config)
        ensures
            *config == self.spec_config(),
    {
        &self.config
    }

    /// The pipeline, for a look at its stages.
    pub fn pipeline(&self) -> (pipeline: &MiddlewarePipeline<Stage>)
        ensures
            pipeline@ == self@.pipeline,
    {
        &self.middleware_pipeline
    }

    /// Hands out what the logging stages have observed since they were
    /// last asked, and leaves them with nothing.
    pub fn take_log_records(&mut self) -> (records: Vec<LogRecord>)
        requires
            old(self).wf(),
        ensures
            final(self).wf(),
            final(self).spec_config() == old(self).spec_config(),
            final(self)@.cache == old(self)@.cache,
            final(self)@.resolver == old(self)@.resolver,
            records@ == pending_records(old(self)@.pipeline),
            final(self)@.pipeline.len() == old(self)@.pipeline.len(),
            forall|i: int|
                0 <= i < old(self)@.pipeline.len() ==> old(self)@.pipeline[i].emptied(
                    #[trigger] final(self)@.pipeline[i],
                ),
    {
        self.middleware_pipeline.take_log_records()
    }

    /// Decides what becomes of a query that has just come in.
    pub fn handle_query(&mut self, query: &DnsMessage, client_addr: SocketAddress) -> (action:
        QueryAction)
        requires
            old(self).wf(),
        ensures
            final(self).wf(),
            final(self).spec_config() == old(self).spec_config(),
            old(self)@.may_receive(query@, client_addr, final(self)@, action),
    {
        let ghost before = self@;
        let verdict = self.middleware_pipeline.handle_request(query, client_addr);
        let ghost admitted = self.middleware_pipeline@;
        let ghost outcome = outcome_of(verdict);
        assert(runs_request_phase(before.pipeline, query@, client_addr, admitted, outcome));
        match verdict {
            Ok(Some(response)) => {
                let action = QueryAction::Reply { response, failure: None };
                proof {
                    assert(before.decides(query@, client_addr, 0, admitted, outcome, self@, action));
                    assert(before.receives(query@, client_addr, 0, self@, action));
                }
                return action;
            },
            Err(reason) => {
                let action = QueryAction::Drop(DropReason::Rejected(reason));
                proof {
                    assert(before.decides(query@, client_addr, 0, admitted, outcome, self@, action));
                    assert(before.receives(query@, client_addr, 0, self@, action));
                }
                return action;
            },
            Ok(None) => {},
        }
        let found = if self.config.cache.enabled {
            self.cache.get(query)
        } else {
            assert(before.cache.lookup(query@, 0) == bytes_of(None));
            None
        };
        let ghost asked_at = choose|now: u128| #[trigger]
            before.cache.lookup(query@, now) == bytes_of(found);
        match found {
            Some(cached) => {
                let (response, failure) = self.respond(query, cached, client_addr);
                let action = QueryAction::Reply { response, failure };
                proof {
                    assert(before.decides(
                        query@,
                        client_addr,
                        asked_at,
                        admitted,
                        outcome,
                        self@,
                        action,
                    ));
                    assert(before.receives(query@, client_addr, asked_at, self@, action));
                }
                action
            },
            None => {
                let action = QueryAction::Resolve;
                proof {
                    assert(before.decides(
                        query@,
                        client_addr,
                        asked_at,
                        admitted,
                        outcome,
                        self@,
                        action,
                    ));
                    assert(before.receives(query@, client_addr, asked_at, self@, action));
                }
                action
            },
        }
    }

    /// Decides what becomes of a query that is being resolved. At the
    /// start of the resolution `event` is `UpstreamEvent::Start` and
    /// `cycle` a new cycle; after an exchange `event` says how it went and
    /// `cycle` is the one that came with the forward.
    pub fn handle_upstream(
        &mut self,
        query: &DnsMessage,
        client_addr: SocketAddress,
        cycle: ResolveCycle,
        event: UpstreamEvent,
    ) -> (action: QueryAction)
        requires
            old(self).wf(),
        ensures
            final(self).wf(),
            final(self).spec_config() == old(self).spec_config(),
            old(self)@.may_hear(query@, client_addr, cycle@, event@, final(self)@, action),
    {
        let ghost before = self@;
        let ghost attempts = cycle@;
        let ghost input = event@;
        let mut cycle = cycle;
        let step = self.resolver.resolve(&mut cycle, query, event);
        match step {
            ResolveAction::Query(request) => {
                let action = QueryAction::Forward { request, cycle };
                proof {
                    assert(before.hears(query@, client_addr, attempts, input, 0, self@, action));
                }
                action
            },
            ResolveAction::Done(Err(reason)) => {
                let action = QueryAction::Drop(DropReason::Unresolved(reason));
                proof {
                    assert(before.hears(query@, client_addr, attempts, input, 0, self@, action));
                }
                action
            },
            ResolveAction::Done(Ok(upstream_response)) => {
                let ghost answer = upstream_response@;
                if self.config.cache.enabled {
                    let copy = upstream_response.clone();
                    assert(copy@ =~= answer);
                    self.cache.put(query, copy, None);
                } else {
                    assert(before.cache.stores(query@, answer, None, 0, before.cache));
                }
                let ghost stored_at = choose|now: u128| #[trigger]
                    before.cache.stores(query@, answer, None, now, self.cache@);
                let (response, failure) = self.respond(query, upstream_response, client_addr);
                let action = QueryAction::Reply { response, failure };
                proof {
                    assert(before.hears(
                        query@,
                        client_addr,
                        attempts,
                        input,
                        stored_at,
                        self@,
                        action,
                    ));
                }
                action
            },
        }
    }

    /// Runs the response phase over `response` and hands back what is to
    /// be sent, with the error that ended the phase early where one did.
    fn respond(&mut self, query: &DnsMessage, response: DnsMessage, client_addr: SocketAddress) -> (sent:
        (DnsMessage, Option<MiddlewareError>))
        requires
            old(self).wf(),
        ensures
            final(self).wf(),
            final(self).spec_config() == old(self).spec_config(),
            final(self)@.cache == old(self)@.cache,
            final(self)@.resolver == old(self)@.resolver,
            runs_response_phase(
                old(self)@.pipeline,
                query@,
                response@,
                client_addr,
                final(self)@.pipeline,
                sent.0@,
                sent.1,
            ),
    {
        let mut rewritten = response;
        let verdict = self.middleware_pipeline.handle_response(query, &mut rewritten, client_addr);
        let failure = match verdict {
            Ok(_) => None,
            Err(reason) => Some(reason),
        };
        (rewritten, failure)
    }
}

/// Copies a list of upstreams.
fn copy_upstreams(upstreams: &Vec<UpstreamConfig>) -> (copy: Vec<UpstreamConfig>)
    ensures
        copy@ == upstreams@,
{
    let mut copy: Vec<UpstreamConfig> = Vec::new();
    let mut i: usize = 0;
    while i < upstreams.len()
        invariant
            i <= upstreams.len(),
            copy@ == upstreams@.take(i as int),
        decreases upstreams.len() - i,
    {
        copy.push(upstreams[i].duplicate());
        proof {
            assert(upstreams@.take(i as int).push(upstreams@[i as int]) == upstreams@.take(i + 1));
        }
        i = i + 1;
    }
    proof {
        assert(upstreams@.take(upstreams@.len() as int) == upstreams@);
    }
    copy
}

} // verus!
