//! The upstream resolver: which upstream a query goes to next, and when to
//! give up.
//!
//! The resolver does no I/O. It is a state machine that the caller drives:
//! every call of [`DnsResolver::resolve`] takes what happened last and
//! answers with what to do next.

use vstd::prelude::*;
use crate::addr::SocketAddress;
use crate::config::{Protocol, UpstreamConfig};

verus! {

/// A raw DNS message.
pub type DnsMessage = Vec<u8>;

/// The size of the buffer a datagram reply is received into.
pub const DATAGRAM_BUFFER_LEN: usize = 512;

/// Why a query could not be resolved.
#[derive(Debug)]
pub enum ResolverError {
    /// Every upstream was tried and none answered.
    AllUpstreamsUnavailable,
    /// One attempt failed in the network.
    NetworkError(String),
    /// One attempt ran out of time.
    Timeout,
    /// The upstream speaks a protocol that is not implemented.
    UnsupportedProtocol,
}

impl ResolverError {
    /// The text that describes the error.
    pub open spec fn spec_message(&self) -> Seq<char> {
        match self {
            ResolverError::AllUpstreamsUnavailable => "所有上游服务器不可用"@,
            ResolverError::NetworkError(detail) => "网络错误: "@ + detail@,
            ResolverError::Timeout => "请求超时"@,
            ResolverError::UnsupportedProtocol => "不支持的协议"@,
        }
    }

    /// Describes the error in words.
    pub fn message(&self) -> (text: String)
        ensures
            text@ == self.spec_message(),
    {
        match self {
            ResolverError::AllUpstreamsUnavailable => "所有上游服务器不可用".to_owned(),
            ResolverError::NetworkError(detail) => {
                let mut text = "网络错误: ".to_owned();
                text.append(detail.as_str());
                text
            },
            ResolverError::Timeout => "请求超时".to_owned(),
            ResolverError::UnsupportedProtocol => "不支持的协议".to_owned(),
        }
    }
}

/// How the bytes of an exchange travel.
#[derive(Debug, Clone, Copy, PartialEq, Eq, Structural)]
pub enum Transport {
    /// One datagram out, one datagram back.
    Datagram,
    /// A connection that carries each message behind a two-byte length.
    Stream,
}

/// One exchange with an upstream that the caller is asked to perform.
#[derive(Debug)]
pub struct UpstreamRequest {
    /// The position of the upstream in the configured list.
    pub upstream: usize,
    pub addr: SocketAddress,
    pub transport: Transport,
    /// The time the exchange may take, in seconds.
    pub timeout: u64,
    /// The bytes to send: the query itself over a datagram, the framed
    /// query over a stream.
    pub payload: DnsMessage,
}

/// What happened since the resolver was last asked.
#[derive(Debug)]
pub enum UpstreamEvent {
    /// Nothing yet: the query has just come in.
    Start,
    /// The upstream that was asked last has answered.
    Reply(DnsMessage),
    /// The exchange with the upstream that was asked last has failed.
    Failed(ResolverError),
}

/// What happened since the resolver was last asked, as a mathematical
/// value.
pub ghost enum ResolveInput {
    Start,
    Reply(Seq<u8>),
    Failed,
}

impl View for UpstreamEvent {
    type V = ResolveInput;

    open spec fn view(&self) -> ResolveInput {
        match self {
            UpstreamEvent::Start => ResolveInput::Start,
            UpstreamEvent::Reply(response) => ResolveInput::Reply(response@),
            UpstreamEvent::Failed(_) => ResolveInput::Failed,
        }
    }
}

/// What the caller is to do next.
#[derive(Debug)]
pub enum ResolveAction {
    /// Perform this exchange and report how it went.
    Query(UpstreamRequest),
    /// The query is settled, with an answer or for good without one.
    Done(Result<DnsMessage, ResolverError>),
}

/// Whether an upstream that speaks `protocol` can be asked at all.
pub open spec fn usable(protocol: Protocol) -> bool {
    protocol == Protocol::UDP || protocol == Protocol::TCP
}

/// The bytes that carry `query` over a stream: its length as two bytes,
/// most significant first, then the query. A length that does not fit in
/// two bytes is cut down to its low sixteen bits.
pub open spec fn stream_frame(query: Seq<u8>) -> Seq<u8> {
    seq![((query.len() / 256) % 256) as u8, (query.len() % 256) as u8] + query
}

/// The length that the two bytes in front of a message on a stream stand
/// for.
pub open spec fn stream_length(high: u8, low: u8) -> nat {
    (high as nat) * 256 + low as nat
}

/// Frames `query` for a stream.
pub fn frame_stream_query(query: &DnsMessage) -> (message: DnsMessage)
    ensures
        message@ == stream_frame(query@),
{
    let length = query.len();
    let mut message: Vec<u8> = Vec::new();
    message.push(((length / 256) % 256) as u8);
    message.push((length % 256) as u8);
    message.extend_from_slice(query.as_slice());
    assert(message@ =~= stream_frame(query@));
    message
}

/// Reads the length in front of a message on a stream.
pub fn stream_reply_len(prefix: [u8; 2]) -> (length: usize)
    ensures
        length == stream_length(prefix[0], prefix[1]),
{
    prefix[0] as usize * 256 + prefix[1] as usize
}

/// The reply a datagram exchange yields: the first `received` bytes of the
/// buffer, or all of it where it holds no more than that.
pub fn datagram_reply(buffer: DnsMessage, received: usize) -> (reply: DnsMessage)
    ensures
        reply@ == if received <= buffer@.len() {
            buffer@.take(received as int)
        } else {
            buffer@
        },
{
    let mut reply = buffer;
    reply.truncate(received);
    reply
}

/// What the resolver decides, as a mathematical value.
pub ghost enum ResolveDecision {
    /// Ask the upstream at this position.
    Query(int),
    /// The query is answered with these bytes.
    Answer(Seq<u8>),
    /// Every upstream has been tried: the query fails.
    GiveUp,
}

/// The resolver as a mathematical value.
pub ghost struct ResolverState {
    pub upstreams: Seq<UpstreamConfig>,
    /// The position of the upstream that is asked next.
    pub cursor: int,
}

/// The resolver and the state of one request cycle after a step, with what
/// was decided.
pub ghost struct ResolveStep {
    pub state: ResolverState,
    /// The attempts that have failed in this cycle.
    pub attempts: nat,
    pub decision: ResolveDecision,
}

impl ResolverState {
    /// The cursor points at an upstream, or at zero where there is none.
    pub open spec fn valid(self) -> bool {
        if self.upstreams.len() == 0 {
            self.cursor == 0
        } else {
            0 <= self.cursor < self.upstreams.len()
        }
    }

    /// The resolver with the cursor moved on by one, around the end of the
    /// list.
    pub open spec fn advanced(self) -> ResolverState {
        ResolverState { cursor: (self.cursor + 1) % (self.upstreams.len() as int), ..self }
    }

    /// Passes over upstreams that cannot be asked. Each of them counts as
    /// a failed attempt and moves the cursor on, until the cursor is at an
    /// upstream that can be asked or every upstream has been tried.
    pub open spec fn settled(self, attempts: nat) -> ResolveStep
        decreases self.upstreams.len() - attempts,
    {
        if attempts >= self.upstreams.len() {
            ResolveStep { state: self, attempts, decision: ResolveDecision::GiveUp }
        } else if usable(self.upstreams[self.cursor].protocol) {
            ResolveStep { state: self, attempts, decision: ResolveDecision::Query(self.cursor) }
        } else {
            self.advanced().settled(attempts + 1)
        }
    }

    /// One step of the resolver in a cycle with `attempts` failed attempts.
    ///
    /// A reply settles the query and leaves the cursor where it is, so the
    /// next query starts with the upstream that answered. A failure counts
    /// as an attempt and moves the cursor on. After a failure, and at the
    /// start, the query goes to the upstream at the cursor, unless as many
    /// attempts have failed as there are upstreams: then the query fails.
    pub open spec fn step(self, attempts: nat, input: ResolveInput) -> ResolveStep {
        match input {
            ResolveInput::Start => self.settled(attempts),
            ResolveInput::Reply(response) => ResolveStep {
                state: self,
                attempts,
                decision: ResolveDecision::Answer(response),
            },
            ResolveInput::Failed => if attempts >= self.upstreams.len() {
                ResolveStep { state: self, attempts, decision: ResolveDecision::GiveUp }
            } else {
                self.advanced().settled(attempts + 1)
            },
        }
    }
}

impl ResolverState {
    /// The position `offset` places after the cursor, around the end of
    /// the list.
    pub open spec fn position(self, offset: int) -> int {
        (self.cursor + offset) % (self.upstreams.len() as int)
    }

    /// Whether the upstream at `index` answers when it is asked: it speaks
    /// a protocol that is implemented and `answers` holds a reply for it.
    pub open spec fn reachable(self, answers: Seq<Option<Seq<u8>>>, index: int) -> bool {
        usable(self.upstreams[index].protocol) && answers[index] is Some
    }

    /// Where a cycle ends that has come to `step`, if every upstream that
    /// is asked behaves as `answers` says: the one at position `i` replies
    /// with the bytes of `answers[i]`, or fails where there are none.
    pub open spec fn follow(step: ResolveStep, answers: Seq<Option<Seq<u8>>>) -> ResolveStep
        decreases step.state.upstreams.len() - step.attempts,
    {
        if step.attempts >= step.state.upstreams.len() {
            step
        } else {
            match step.decision {
                ResolveDecision::Query(index) => match answers[index] {
                    Some(response) => step.state.step(
                        step.attempts,
                        ResolveInput::Reply(response),
                    ),
                    None => {
                        proof {
                            lemma_settled(step.state.advanced(), step.attempts + 1);
                        }
                        Self::follow(step.state.step(step.attempts, ResolveInput::Failed), answers)
                    },
                },
                _ => step,
            }
        }
    }

    /// Where the cycle of a query that has just come in ends, if every
    /// upstream that is asked behaves as `answers` says.
    pub open spec fn run_cycle(self, answers: Seq<Option<Seq<u8>>>) -> ResolveStep {
        Self::follow(self.step(0, ResolveInput::Start), answers)
    }
}

/// What passing over the upstreams that cannot be asked comes to: the
/// cursor has moved by as many places as attempts were added, every place
/// it has left holds an upstream that cannot be asked, and it has stopped
/// at one that can be, unless every upstream has been tried.
pub proof fn lemma_settled(state: ResolverState, attempts: nat)
    requires
        state.upstreams.len() > 0 ==> 0 <= state.cursor < state.upstreams.len(),
    ensures
        ({
            let end = state.settled(attempts);
            let passed = end.attempts - attempts;
            &&& end.state.upstreams == state.upstreams
            &&& passed >= 0
            &&& attempts <= state.upstreams.len() ==> end.attempts <= state.upstreams.len()
            &&& attempts < state.upstreams.len() ==> end.state.cursor == state.position(passed)
            &&& attempts >= state.upstreams.len() ==> end.state == state
            &&& state.upstreams.len() > 0 ==> 0 <= end.state.cursor < state.upstreams.len()
            &&& forall|offset: int|
                0 <= offset < passed ==> !usable(
                    #[trigger] state.upstreams[state.position(offset)].protocol,
                )
            &&& end.decision == if end.attempts >= state.upstreams.len() {
                ResolveDecision::GiveUp
            } else {
                ResolveDecision::Query(end.state.cursor)
            }
            &&& end.attempts < state.upstreams.len() ==> usable(
                state.upstreams[end.state.cursor].protocol,
            )
        }),
    decreases state.upstreams.len() - attempts,
{
    let count = state.upstreams.len() as int;
    if attempts < count {
        vstd::arithmetic::div_mod::lemma_small_mod(state.cursor as nat, count as nat);
        if !usable(state.upstreams[state.cursor].protocol) {
            let next = state.advanced();
            lemma_settled(next, attempts + 1);
            let end = state.settled(attempts);
            let passed = end.attempts - attempts;
            assert forall|offset: int| 0 <= offset < passed implies !usable(
                #[trigger] state.upstreams[state.position(offset)].protocol,
            ) by {
                if offset > 0 {
                    lemma_position_after_advance(state, offset - 1);
                }
            }
            if attempts + 1 < count {
                lemma_position_after_advance(state, passed - 1);
            }
        }
    }
}

/// A place counted from the cursor moved on by one is the next place
/// counted from the cursor.
proof fn lemma_position_after_advance(state: ResolverState, offset: int)
    requires
        state.upstreams.len() > 0,
    ensures
        state.advanced().position(offset) == state.position(offset + 1),
{
    let count = state.upstreams.len() as int;
    vstd::arithmetic::div_mod::lemma_add_mod_noop(state.cursor + 1, offset, count);
    vstd::arithmetic::div_mod::lemma_add_mod_noop(state.cursor + 1 + offset, 0, count);
    vstd::arithmetic::div_mod::lemma_mod_twice(state.cursor + 1, count);
    assert(((state.cursor + 1) % count + offset) % count == (state.cursor + 1 + offset) % count) by {
        vstd::arithmetic::div_mod::lemma_add_mod_noop((state.cursor + 1) % count, offset, count);
    }
}

/// Where a cycle ends. The cursor moves on by one place for every failed
/// attempt. No upstream that the cycle has passed was reachable. The cycle
/// ends at the first reachable upstream with that upstream's reply, the
/// cursor resting on it; or, where it has passed as many upstreams as
/// there are, with the query given up.
pub proof fn lemma_follow(step: ResolveStep, answers: Seq<Option<Seq<u8>>>)
    requires
        step.state.valid(),
        answers.len() == step.state.upstreams.len(),
        step.attempts <= step.state.upstreams.len(),
        step.decision == if step.attempts >= step.state.upstreams.len() {
            ResolveDecision::GiveUp
        } else {
            ResolveDecision::Query(step.state.cursor)
        },
        step.attempts < step.state.upstreams.len() ==> usable(
            step.state.upstreams[step.state.cursor].protocol,
        ),
    ensures
        ({
            let end = ResolverState::follow(step, answers);
            let passed = end.attempts - step.attempts;
            &&& end.state.upstreams == step.state.upstreams
            &&& end.state.valid()
            &&& 0 <= passed
            &&& end.attempts <= step.state.upstreams.len()
            &&& step.state.upstreams.len() > 0 ==> end.state.cursor == step.state.position(passed)
            &&& forall|offset: int|
                0 <= offset < passed ==> !#[trigger] step.state.reachable(
                    answers,
                    step.state.position(offset),
                )
            &&& if end.attempts < step.state.upstreams.len() {
                &&& step.state.reachable(answers, end.state.cursor)
                &&& end.decision == ResolveDecision::Answer(answers[end.state.cursor]->0)
            } else {
                end.decision == ResolveDecision::GiveUp
            }
        }),
    decreases step.state.upstreams.len() - step.attempts,
{
    let state = step.state;
    let count = state.upstreams.len() as int;
    if count > 0 {
        vstd::arithmetic::div_mod::lemma_small_mod(state.cursor as nat, count as nat);
    }
    if step.attempts < count {
        if answers[state.cursor] is None {
            let failed = state.step(step.attempts, ResolveInput::Failed);
            lemma_settled(state.advanced(), step.attempts + 1);
            lemma_follow(failed, answers);
            let end = ResolverState::follow(step, answers);
            assert(end == ResolverState::follow(failed, answers));
            let skipped = failed.attempts - step.attempts;
            let passed = end.attempts - step.attempts;
            assert(failed.state.cursor == state.position(skipped)) by {
                if step.attempts + 1 < count {
                    lemma_position_after_advance(state, skipped - 1);
                }
            }
            assert forall|offset: int| 0 <= offset < passed implies !#[trigger] state.reachable(
                answers,
                state.position(offset),
            ) by {
                if 0 < offset < skipped {
                    lemma_position_after_advance(state, offset - 1);
                    assert(!usable(
                        state.advanced().upstreams[state.advanced().position(offset - 1)].protocol,
                    ));
                } else if offset >= skipped {
                    lemma_position_sum(state, skipped, offset - skipped);
                    assert(!failed.state.reachable(
                        answers,
                        failed.state.position(offset - skipped),
                    ));
                }
            }
            assert(failed.state == (ResolverState { cursor: state.position(skipped), ..state }));
            lemma_position_sum(state, skipped, passed - skipped);
        }
    }
}

/// Counting on from a place counted from the cursor adds the counts.
proof fn lemma_position_sum(state: ResolverState, first: int, second: int)
    requires
        state.upstreams.len() > 0,
    ensures
        (ResolverState { cursor: state.position(first), ..state }).position(second)
            == state.position(first + second),
{
    let count = state.upstreams.len() as int;
    vstd::arithmetic::div_mod::lemma_add_mod_noop(state.cursor + first, second, count);
    vstd::arithmetic::div_mod::lemma_add_mod_noop((state.cursor + first) % count, second, count);
    vstd::arithmetic::div_mod::lemma_mod_twice(state.cursor + first, count);
}

/// Within one cycle no upstream is visited twice: the places that fewer
/// steps than there are upstreams lead to from the cursor are all
/// different.
pub proof fn lemma_positions_differ(state: ResolverState, first: int, second: int)
    requires
        state.valid(),
        0 <= first < second < state.upstreams.len(),
    ensures
        state.position(first) != state.position(second),
        0 <= state.position(first) < state.upstreams.len(),
        0 <= state.position(second) < state.upstreams.len(),
{
    let count = state.upstreams.len() as int;
    let a = state.cursor + first;
    let b = state.cursor + second;
    vstd::arithmetic::div_mod::lemma_fundamental_div_mod(a, count);
    vstd::arithmetic::div_mod::lemma_fundamental_div_mod(b, count);
    vstd::arithmetic::div_mod::lemma_mod_bound(a, count);
    vstd::arithmetic::div_mod::lemma_mod_bound(b, count);
    if a % count == b % count {
        let qa = a / count;
        let qb = b / count;
        assert(b - a == count * qb - count * qa);
        assert(count * qb - count * qa == count * (qb - qa)) by (nonlinear_arith);
        assert(0 < count * (qb - qa) < count);
        assert(false) by (nonlinear_arith)
            requires
                0 < count * (qb - qa) < count,
                count > 0,
        ;
    }
}

/// Failover. Where the upstream `failures` places after the cursor is the
/// first that is reachable, the cycle of a new query ends with that
/// upstream's reply after exactly `failures` failed attempts, and leaves
/// the cursor on that upstream, so that the next query goes to it first.
pub proof fn lemma_failover_stops_at_first_reachable(
    state: ResolverState,
    answers: Seq<Option<Seq<u8>>>,
    failures: int,
)
    requires
        state.valid(),
        answers.len() == state.upstreams.len(),
        0 <= failures < state.upstreams.len(),
        forall|offset: int|
            0 <= offset < failures ==> !#[trigger] state.reachable(answers, state.position(offset)),
        state.reachable(answers, state.position(failures)),
    ensures
        ({
            let end = state.run_cycle(answers);
            &&& end.decision == ResolveDecision::Answer(answers[state.position(failures)]->0)
            &&& end.attempts == failures
            &&& end.state == (ResolverState { cursor: state.position(failures), ..state })
            &&& end.state.step(0, ResolveInput::Start).decision == ResolveDecision::Query(
                state.position(failures),
            )
        }),
{
    let first = state.step(0, ResolveInput::Start);
    lemma_settled(state, 0);
    lemma_follow(first, answers);
    let end = state.run_cycle(answers);
    let skipped = first.attempts as int;
    let passed = end.attempts - first.attempts;
    let count = state.upstreams.len() as int;
    assert(forall|offset: int|
        0 <= offset < skipped ==> !#[trigger] state.reachable(answers, state.position(offset)));
    assert forall|offset: int| skipped <= offset < end.attempts implies !#[trigger] state.reachable(
        answers,
        state.position(offset),
    ) by {
        lemma_position_sum(state, skipped, offset - skipped);
        assert(!first.state.reachable(answers, first.state.position(offset - skipped)));
    }
    lemma_position_sum(state, skipped, passed);
    assert(end.state.cursor == state.position(end.attempts as int));
    if end.attempts < failures {
        assert(!state.reachable(answers, state.position(end.attempts as int)));
    } else if end.attempts > failures {
        if failures < skipped {
            assert(!state.reachable(answers, state.position(failures)));
        } else {
            assert(!state.reachable(answers, state.position(failures)));
        }
    }
    lemma_settled(end.state, 0);
    vstd::arithmetic::div_mod::lemma_small_mod(end.state.cursor as nat, count as nat);
}

/// Exhaustion. Where no upstream is reachable, the cycle of a new query
/// ends with the query given up after exactly as many failed attempts as
/// there are upstreams, and the cursor is back where it started.
pub proof fn lemma_exhaustion_tries_every_upstream_once(
    state: ResolverState,
    answers: Seq<Option<Seq<u8>>>,
)
    requires
        state.valid(),
        answers.len() == state.upstreams.len(),
        forall|index: int|
            0 <= index < state.upstreams.len() ==> !#[trigger] state.reachable(answers, index),
    ensures
        ({
            let end = state.run_cycle(answers);
            &&& end.decision == ResolveDecision::GiveUp
            &&& end.attempts == state.upstreams.len()
            &&& end.state == state
        }),
{
    let first = state.step(0, ResolveInput::Start);
    lemma_settled(state, 0);
    lemma_follow(first, answers);
    let end = state.run_cycle(answers);
    let count = state.upstreams.len() as int;
    if count > 0 {
        let skipped = first.attempts as int;
        let passed = end.attempts - first.attempts;
        lemma_position_sum(state, skipped, passed);
        vstd::arithmetic::div_mod::lemma_mod_self_0(count);
        vstd::arithmetic::div_mod::lemma_add_mod_noop(state.cursor, count, count);
        vstd::arithmetic::div_mod::lemma_small_mod(state.cursor as nat, count as nat);
        if end.attempts < count {
            assert(state.reachable(answers, end.state.cursor));
        }
    }
}

/// Whether `request` is the exchange that carries `query` to `upstream`,
/// the upstream at position `index`.
pub open spec fn request_for(
    request: UpstreamRequest,
    index: int,
    upstream: UpstreamConfig,
    query: Seq<u8>,
) -> bool {
    &&& request.upstream == index
    &&& request.addr == upstream.addr
    &&& request.timeout == upstream.timeout
    &&& if upstream.protocol == Protocol::UDP {
        request.transport == Transport::Datagram && request.payload@ == query
    } else {
        request.transport == Transport::Stream && request.payload@ == stream_frame(query)
    }
}

/// Whether `action` carries out `decision` for `query`.
pub open spec fn carries_out(
    action: ResolveAction,
    decision: ResolveDecision,
    upstreams: Seq<UpstreamConfig>,
    query: Seq<u8>,
) -> bool {
    match decision {
        ResolveDecision::Query(index) => action matches ResolveAction::Query(request)
            && request_for(request, index, upstreams[index], query),
        ResolveDecision::Answer(response) => action matches ResolveAction::Done(Ok(bytes))
            && bytes@ == response,
        ResolveDecision::GiveUp => action matches ResolveAction::Done(Err(reason)) && reason
            == ResolverError::AllUpstreamsUnavailable,
    }
}

/// The state of one request cycle: how many attempts have failed in it.
#[derive(Debug)]
pub struct ResolveCycle {
    attempts: usize,
}

impl View for ResolveCycle {
    type V = nat;

    closed spec fn view(&self) -> nat {
        self.attempts as nat
    }
}

impl ResolveCycle {
    /// The cycle of a query that has just come in.
    pub fn new() -> (cycle: ResolveCycle)
        ensures
            cycle@ == 0,
    {
        ResolveCycle { attempts: 0 }
    }

    /// The attempts that have failed in this cycle.
    pub fn attempts(&self) -> (attempts: usize)
        ensures
            attempts == self@,
    {
        self.attempts
    }
}

/// Forwards queries to the configured upstreams, one at a time, moving on
/// to the next when one fails.
pub struct DnsResolver {
    upstreams: Vec<UpstreamConfig>,
    current_upstream: usize,
}

impl View for DnsResolver {
    type V = ResolverState;

    closed spec fn view(&self) -> ResolverState {
        ResolverState { upstreams: self.upstreams@, cursor: self.current_upstream as int }
    }
}

impl DnsResolver {
    /// The invariant of the resolver.
    pub open spec fn wf(&self) -> bool {
        self@.valid()
    }

    /// A resolver that starts with the first of `upstreams`.
    pub fn new(upstreams: Vec<UpstreamConfig>) -> (resolver: DnsResolver)
        ensures
            resolver.wf(),
            resolver@ == (ResolverState { upstreams: upstreams@, cursor: 0 }),
    {
        DnsResolver { upstreams, current_upstream: 0 }
    }

    /// The upstream that is asked next, where any is configured.
    pub fn current_upstream(&self) -> (upstream: Option<&UpstreamConfig>)
        requires
            self.wf(),
        ensures
            match upstream {
                Some(config) => self@.upstreams.len() > 0 && *config == self@.upstreams[self@.cursor],
                None => self@.upstreams.len() == 0,
            },
    {
        if self.current_upstream < self.upstreams.len() {
            Some(&self.upstreams[self.current_upstream])
        } else {
            None
        }
    }

    /// Plans the exchange that carries `query` to the upstream at
    /// position `index`: one datagram each way for UDP, a framed message
    /// each way over a connection for TCP. DNS over TLS and DNS over HTTPS
    /// are not implemented: an upstream that speaks either fails at once.
    pub fn query_upstream(&self, index: usize, query: &DnsMessage) -> (planned: Result<
        UpstreamRequest,
        ResolverError,
    >)
        requires
            index < self@.upstreams.len(),
        ensures
            match planned {
                Ok(request) => usable(self@.upstreams[index as int].protocol) && request_for(
                    request,
                    index as int,
                    self@.upstreams[index as int],
                    query@,
                ),
                Err(reason) => !usable(self@.upstreams[index as int].protocol) && reason
                    == ResolverError::UnsupportedProtocol,
            },
    {
        let upstream = &self.upstreams[index];
        match upstream.protocol {
            Protocol::UDP => Ok(
                UpstreamRequest {
                    upstream: index,
                    addr: upstream.addr,
                    transport: Transport::Datagram,
                    timeout: upstream.timeout,
                    payload: query.clone(),
                },
            ),
            Protocol::TCP => Ok(
                UpstreamRequest {
                    upstream: index,
                    addr: upstream.addr,
                    transport: Transport::Stream,
                    timeout: upstream.timeout,
                    payload: frame_stream_query(query),
                },
            ),
            Protocol::DoT | Protocol::DoH => Err(ResolverError::UnsupportedProtocol),
        }
    }

    /// The number of upstreams.
    pub fn upstream_count(&self) -> (count: usize)
        ensures
            count == self@.upstreams.len(),
    {
        self.upstreams.len()
    }

    /// Takes one step in resolving `query`: given what happened last in
    /// this request's cycle, says what to do next.
    pub fn resolve(&mut self, cycle: &mut ResolveCycle, query: &DnsMessage, event: UpstreamEvent) -> (action:
        ResolveAction)
        requires
            old(self).wf(),
        ensures
            final(self).wf(),
            final(self)@ == old(self)@.step(old(cycle)@, event@).state,
            final(cycle)@ == old(self)@.step(old(cycle)@, event@).attempts,
            carries_out(
                action,
                old(self)@.step(old(cycle)@, event@).decision,
                old(self)@.upstreams,
                query@,
            ),
    {
        let count = self.upstreams.len();
        let ghost goal = self@.step(cycle@, event@);
        match event {
            UpstreamEvent::Reply(response) => {
                return ResolveAction::Done(Ok(response));
            },
            UpstreamEvent::Failed(_) => {
                if cycle.attempts >= count {
                    return ResolveAction::Done(Err(ResolverError::AllUpstreamsUnavailable));
                }
                cycle.attempts = cycle.attempts + 1;
                self.current_upstream = (self.current_upstream + 1) % count;
            },
            UpstreamEvent::Start => {},
        }
        while cycle.attempts < count
            invariant
                count == self.upstreams@.len(),
                self.upstreams@ == old(self).upstreams@,
                self.wf(),
                self@.settled(cycle@) == goal,
                goal == old(self)@.step(old(cycle)@, event@),
            decreases count - cycle.attempts,
        {
            match self.query_upstream(self.current_upstream, query) {
                Ok(request) => {
                    return ResolveAction::Query(request);
                },
                Err(_) => {
                    cycle.attempts = cycle.attempts + 1;
                    self.current_upstream = (self.current_upstream + 1) % count;
                },
            }
        }
        ResolveAction::Done(Err(ResolverError::AllUpstreamsUnavailable))
    }
}

} // verus!
