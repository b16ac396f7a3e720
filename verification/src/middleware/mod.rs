//! The middleware pipeline: an ordered chain of stages that see every
//! request before it is resolved and every response before it is sent.

pub mod logging;
pub mod metrics;
pub mod rate_limit;
pub mod stage;

use vstd::prelude::*;
use crate::addr::SocketAddress;
use crate::middleware::logging::LogRecord;
use crate::middleware::stage::{pending_records, Stage};

verus! {

/// A raw DNS message.
pub type DnsMessage = Vec<u8>;

/// What a stage answers to a request: `Ok(None)` to let it continue,
/// `Ok(Some(response))` to answer it on the spot, `Err(reason)` to reject it.
pub type MiddlewareResult = Result<Option<DnsMessage>, MiddlewareError>;

/// Why a stage turned a request or a response down.
#[derive(Debug)]
pub enum MiddlewareError {
    RateLimited,
    Blocked,
    InternalError(String),
}

impl MiddlewareError {
    /// The text that describes the error.
    pub open spec fn spec_message(&self) -> Seq<char> {
        match self {
            MiddlewareError::RateLimited => "Request rate limited"@,
            MiddlewareError::Blocked => "Request blocked by filter"@,
            MiddlewareError::InternalError(detail) => "Internal error: "@ + detail@,
        }
    }

    /// Describes the error in words.
    pub fn message(&self) -> (text: String)
        ensures
            text@ == self.spec_message(),
    {
        match self {
            MiddlewareError::RateLimited => "Request rate limited".to_owned(),
            MiddlewareError::Blocked => "Request blocked by filter".to_owned(),
            MiddlewareError::InternalError(detail) => {
                let mut text = "Internal error: ".to_owned();
                text.append(detail.as_str());
                text
            },
        }
    }
}

/// What a stage decided about a request, as a mathematical value.
pub ghost enum MiddlewareOutcome {
    /// The request goes on to the next stage.
    Continue,
    /// The stage produced the final response itself.
    ShortCircuit(Seq<u8>),
    /// The request is dropped.
    Rejected(MiddlewareError),
}

/// The decision that a stage's answer to a request stands for.
pub open spec fn outcome_of(result: MiddlewareResult) -> MiddlewareOutcome {
    match result {
        Ok(None) => MiddlewareOutcome::Continue,
        Ok(Some(response)) => MiddlewareOutcome::ShortCircuit(response@),
        Err(reason) => MiddlewareOutcome::Rejected(reason),
    }
}

/// The error a stage's verdict on a response carries, if any.
pub open spec fn failure_of(verdict: Result<(), MiddlewareError>) -> Option<MiddlewareError> {
    match verdict {
        Ok(_) => None,
        Err(reason) => Some(reason),
    }
}

/// One stage of the pipeline.
///
/// A stage owns its state, and says with two relations what a call may do
/// to it: `request_effect` relates the stage before and after it has seen a
/// request to what it decided, `response_effect` relates the stage and the
/// response before and after it has seen a response to its verdict. A
/// stage that states no relation of its own promises nothing: whatever it
/// does is allowed.
pub trait Middleware: Sized {
    /// The invariant of the stage. A stage that states none has none.
    open spec fn wf(&self) -> bool {
        true
    }

    /// Whether a stage in state `before` that is handed `request` from
    /// `client_addr` may end in state `after` having decided `outcome`.
    open spec fn request_effect(
        before: Self,
        request: Seq<u8>,
        client_addr: SocketAddress,
        after: Self,
        outcome: MiddlewareOutcome,
    ) -> bool {
        true
    }

    /// Whether a stage in state `before` that is handed `response` to
    /// `request` from `client_addr` may end in state `after` having turned
    /// the response into `rewritten`, and having failed with `failure`
    /// where that is an error.
    open spec fn response_effect(
        before: Self,
        request: Seq<u8>,
        response: Seq<u8>,
        client_addr: SocketAddress,
        after: Self,
        rewritten: Seq<u8>,
        failure: Option<MiddlewareError>,
    ) -> bool {
        true
    }

    /// Whether `name` is the name of the stage.
    open spec fn named(&self, name: Seq<char>) -> bool {
        true
    }

    /// Sees a request before it is resolved.
    fn handle_request(&mut self, request: &DnsMessage, client_addr: SocketAddress) -> (result:
        MiddlewareResult)
        requires
            old(self).wf(),
        ensures
            final(self).wf(),
            Self::request_effect(
                *old(self),
                request@,
                client_addr,
                *final(self),
                outcome_of(result),
            ),
    ;

    /// Sees a response before it is sent, and may rewrite it in place.
    fn handle_response(
        &mut self,
        request: &DnsMessage,
        response: &mut DnsMessage,
        client_addr: SocketAddress,
    ) -> (verdict: Result<(), MiddlewareError>)
        requires
            old(self).wf(),
        ensures
            final(self).wf(),
            Self::response_effect(
                *old(self),
                request@,
                old(response)@,
                client_addr,
                *final(self),
                final(response)@,
                failure_of(verdict),
            ),
    ;

    /// The name of the stage.
    fn name(&self) -> (name: &str)
        ensures
            self.named(name@),
    ;
}

/// The stages of a pipeline in registration order.
pub struct MiddlewarePipeline<M: Middleware> {
    middlewares: Vec<M>,
}

impl<M: Middleware> View for MiddlewarePipeline<M> {
    type V = Seq<M>;

    closed spec fn view(&self) -> Seq<M> {
        self.middlewares@
    }
}

/// Whether the request phase may take the stages from `before` to `after`
/// with `outcome`, the stage at `stopped_at` being the one that ended it.
///
/// The stages run in order. Each one before `stopped_at` saw the request
/// and let it continue. The stage at `stopped_at`, where there is one,
/// answered or rejected the request, and that is the outcome of the phase.
/// No stage after it ran. Where every stage let the request continue,
/// `stopped_at` is the number of stages and the request continues.
pub open spec fn request_phase<M: Middleware>(
    before: Seq<M>,
    request: Seq<u8>,
    client_addr: SocketAddress,
    after: Seq<M>,
    outcome: MiddlewareOutcome,
    stopped_at: int,
) -> bool {
    &&& after.len() == before.len()
    &&& 0 <= stopped_at <= before.len()
    &&& forall|i: int|
        0 <= i < stopped_at ==> M::request_effect(
            before[i],
            request,
            client_addr,
            #[trigger] after[i],
            MiddlewareOutcome::Continue,
        )
    &&& stopped_at < before.len() ==> {
        &&& !(outcome is Continue)
        &&& M::request_effect(
            before[stopped_at],
            request,
            client_addr,
            after[stopped_at],
            outcome,
        )
    }
    &&& stopped_at == before.len() ==> outcome is Continue
    &&& forall|i: int| stopped_at < i < before.len() ==> #[trigger] after[i] == before[i]
}

/// Whether the request phase may take the stages from `before` to `after`
/// with `outcome`.
pub open spec fn runs_request_phase<M: Middleware>(
    before: Seq<M>,
    request: Seq<u8>,
    client_addr: SocketAddress,
    after: Seq<M>,
    outcome: MiddlewareOutcome,
) -> bool {
    exists|stopped_at: int| #[trigger]
        request_phase(before, request, client_addr, after, outcome, stopped_at)
}

/// Whether the response phase may take the stages from `before` to `after`
/// and the response from `response` to `rewritten`, failing with `failure`
/// where that is an error, with `trace` as its record.
///
/// `trace` holds the response as each stage that ran received it, followed
/// by the response the last of them left. The stages run in order, each on
/// what the one before it left. A stage that fails ends the phase with its
/// error; what it and the stages before it did to the response stays. No
/// stage after it runs.
pub open spec fn response_phase<M: Middleware>(
    before: Seq<M>,
    request: Seq<u8>,
    response: Seq<u8>,
    client_addr: SocketAddress,
    after: Seq<M>,
    rewritten: Seq<u8>,
    failure: Option<MiddlewareError>,
    trace: Seq<Seq<u8>>,
) -> bool {
    let ran = trace.len() - 1;
    &&& after.len() == before.len()
    &&& 0 <= ran <= before.len()
    &&& trace[0] == response
    &&& trace[ran] == rewritten
    &&& forall|i: int|
        0 <= i < ran ==> M::response_effect(
            before[i],
            request,
            trace[i],
            client_addr,
            #[trigger] after[i],
            trace[i + 1],
            if i + 1 < ran {
                None
            } else {
                failure
            },
        )
    &&& ran < before.len() ==> failure is Some
    &&& failure is Some ==> ran > 0
    &&& forall|i: int| ran <= i < before.len() ==> #[trigger] after[i] == before[i]
}

/// Whether the response phase may take the stages from `before` to `after`
/// and the response from `response` to `rewritten`, failing with `failure`
/// where that is an error.
pub open spec fn runs_response_phase<M: Middleware>(
    before: Seq<M>,
    request: Seq<u8>,
    response: Seq<u8>,
    client_addr: SocketAddress,
    after: Seq<M>,
    rewritten: Seq<u8>,
    failure: Option<MiddlewareError>,
) -> bool {
    exists|trace: Seq<Seq<u8>>| #[trigger]
        response_phase(
            before,
            request,
            response,
            client_addr,
            after,
            rewritten,
            failure,
            trace,
        )
}

impl<M: Middleware> MiddlewarePipeline<M> {
    /// Every stage satisfies its invariant.
    pub open spec fn wf(&self) -> bool {
        forall|i: int| 0 <= i < self@.len() ==> (#[trigger] self@[i]).wf()
    }

    /// A pipeline without stages.
    pub fn new() -> (pipeline: Self)
        ensures
            pipeline.wf(),
            pipeline@ == Seq::<M>::empty(),
    {
        MiddlewarePipeline { middlewares: Vec::new() }
    }

    /// Registers `middleware` as the last stage.
    pub fn add_middleware(&mut self, middleware: M)
        requires
            old(self).wf(),
            middleware.wf(),
        ensures
            final(self).wf(),
            final(self)@ == old(self)@.push(middleware),
    {
        self.middlewares.push(middleware);
    }

    /// The stages in registration order.
    pub fn middlewares(&self) -> (stages: &Vec<M>)
        ensures
            stages@ == self@,
    {
        &self.middlewares
    }

    /// Runs the request phase: hands the request to the stages in
    /// registration order until one answers or rejects it.
    pub fn handle_request(&mut self, request: &DnsMessage, client_addr: SocketAddress) -> (result:
        MiddlewareResult)
        requires
            old(self).wf(),
        ensures
            final(self).wf(),
            runs_request_phase(
                old(self)@,
                request@,
                client_addr,
                final(self)@,
                outcome_of(result),
            ),
    {
        let count = self.middlewares.len();
        let mut i: usize = 0;
        while i < count
            invariant
                count == self.middlewares@.len(),
                i <= count,
                self.wf(),
                self@.len() == old(self)@.len(),
                forall|j: int|
                    0 <= j < i ==> M::request_effect(
                        old(self)@[j],
                        request@,
                        client_addr,
                        #[trigger] self@[j],
                        MiddlewareOutcome::Continue,
                    ),
                forall|j: int| i <= j < count ==> #[trigger] self@[j] == old(self)@[j],
            decreases count - i,
        {
            let result = self.middlewares[i].handle_request(request, client_addr);
            match result {
                Ok(None) => {},
                _ => {
                    assert(request_phase(
                        old(self)@,
                        request@,
                        client_addr,
                        self@,
                        outcome_of(result),
                        i as int,
                    ));
                    return result;
                },
            }
            i = i + 1;
        }
        assert(request_phase(
            old(self)@,
            request@,
            client_addr,
            self@,
            MiddlewareOutcome::Continue,
            count as int,
        ));
        Ok(None)
    }

    /// Runs the response phase: hands the response to every stage in
    /// registration order, each rewriting it in place, until one fails.
    pub fn handle_response(
        &mut self,
        request: &DnsMessage,
        response: &mut DnsMessage,
        client_addr: SocketAddress,
    ) -> (verdict: Result<(), MiddlewareError>)
        requires
            old(self).wf(),
        ensures
            final(self).wf(),
            runs_response_phase(
                old(self)@,
                request@,
                old(response)@,
                client_addr,
                final(self)@,
                final(response)@,
                failure_of(verdict),
            ),
    {
        let count = self.middlewares.len();
        let ghost mut trace: Seq<Seq<u8>> = seq![response@];
        let mut i: usize = 0;
        while i < count
            invariant
                count == self.middlewares@.len(),
                i <= count,
                self.wf(),
                self@.len() == old(self)@.len(),
                trace.len() == i + 1,
                trace[0] == old(response)@,
                trace[i as int] == response@,
                forall|j: int|
                    0 <= j < i ==> M::response_effect(
                        old(self)@[j],
                        request@,
                        trace[j],
                        client_addr,
                        #[trigger] self@[j],
                        trace[j + 1],
                        None,
                    ),
                forall|j: int| i <= j < count ==> #[trigger] self@[j] == old(self)@[j],
            decreases count - i,
        {
            let ghost stages = self@;
            let ghost earlier = trace;
            let verdict = self.middlewares[i].handle_response(request, response, client_addr);
            proof {
                trace = earlier.push(response@);
                assert forall|j: int| 0 <= j < i implies M::response_effect(
                    old(self)@[j],
                    request@,
                    trace[j],
                    client_addr,
                    #[trigger] self@[j],
                    trace[j + 1],
                    None,
                ) by {
                    assert(self@[j] == stages[j]);
                    assert(trace[j] == earlier[j]);
                    assert(trace[j + 1] == earlier[j + 1]);
                }
            }
            match verdict {
                Ok(()) => {},
                Err(_) => {
                    assert(response_phase(
                        old(self)@,
                        request@,
                        old(response)@,
                        client_addr,
                        self@,
                        response@,
                        failure_of(verdict),
                        trace,
                    ));
                    return verdict;
                },
            }
            i = i + 1;
        }
        assert(response_phase(
            old(self)@,
            request@,
            old(response)@,
            client_addr,
            self@,
            response@,
            None,
            trace,
        ));
        Ok(())
    }
}

impl MiddlewarePipeline<Stage> {
    /// Hands out the observations that the logging stages hold, stage by
    /// stage, and leaves them with none.
    pub fn take_log_records(&mut self) -> (records: Vec<LogRecord>)
        requires
            old(self).wf(),
        ensures
            final(self).wf(),
            records@ == pending_records(old(self)@),
            final(self)@.len() == old(self)@.len(),
            forall|i: int|
                0 <= i < old(self)@.len() ==> old(self)@[i].emptied(#[trigger] final(self)@[i]),
    {
        let mut records: Vec<LogRecord> = Vec::new();
        let count = self.middlewares.len();
        let mut i: usize = 0;
        proof {
            assert(old(self)@.take(0) =~= Seq::<Stage>::empty());
        }
        while i < count
            invariant
                count == self.middlewares@.len(),
                count == old(self)@.len(),
                i <= count,
                self.wf(),
                records@ == pending_records(old(self)@.take(i as int)),
                forall|j: int| 0 <= j < i ==> old(self)@[j].emptied(#[trigger] self@[j]),
                forall|j: int| i <= j < count ==> #[trigger] self@[j] == old(self)@[j],
            decreases count - i,
        {
            assert(self@[i as int].wf());
            let mut taken = self.middlewares[i].take_log_records();
            proof {
                let longer = old(self)@.take(i + 1);
                assert(longer.drop_last() == old(self)@.take(i as int));
                assert(longer.last() == old(self)@[i as int]);
            }
            records.append(&mut taken);
            i = i + 1;
        }
        proof {
            assert(old(self)@.take(count as int) == old(self)@);
        }
        records
    }
}

impl<M: Middleware> Default for MiddlewarePipeline<M> {
    fn default() -> (pipeline: Self)
        ensures
            pipeline.wf(),
            pipeline@ == Seq::<M>::empty(),
    {
        MiddlewarePipeline::new()
    }
}

} // verus!
