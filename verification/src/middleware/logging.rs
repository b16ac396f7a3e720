//! The stage that records who asked and how much was said.

use vstd::prelude::*;
use crate::addr::SocketAddress;
use crate::middleware::{DnsMessage, Middleware, MiddlewareError, MiddlewareOutcome, MiddlewareResult};

verus! {

/// The phase in which a message was seen.
#[derive(Debug, Clone, Copy, PartialEq, Eq, Structural)]
pub enum LogPhase {
    Request,
    Response,
}

/// One observation: a message of `length` bytes from or for `client_addr`.
#[derive(Debug, Clone, Copy, PartialEq, Eq, Structural)]
pub struct LogRecord {
    pub phase: LogPhase,
    pub client_addr: SocketAddress,
    pub length: usize,
}

/// The logging stage as a mathematical value.
pub ghost struct LoggingState {
    pub enabled: bool,
    /// The observations not yet taken, oldest first.
    pub records: Seq<LogRecord>,
}

impl LoggingState {
    /// The stage after it has seen a message of `length` bytes.
    pub open spec fn saw(self, phase: LogPhase, client_addr: SocketAddress, length: nat) -> LoggingState {
        if self.enabled {
            LoggingState {
                records: self.records.push(
                    LogRecord { phase, client_addr, length: length as usize },
                ),
                ..self
            }
        } else {
            self
        }
    }
}

/// Records the client address and the length of every message it sees. It
/// never rewrites and never rejects. The records pile up until they are
/// taken.
pub struct LoggingMiddleware {
    enabled: bool,
    records: Vec<LogRecord>,
}

impl View for LoggingMiddleware {
    type V = LoggingState;

    closed spec fn view(&self) -> LoggingState {
        LoggingState { enabled: self.enabled, records: self.records@ }
    }
}

impl LoggingMiddleware {
    /// A stage that has seen nothing yet.
    pub fn new(enabled: bool) -> (stage: LoggingMiddleware)
        ensures
            stage@ == (LoggingState { enabled, records: Seq::empty() }),
    {
        LoggingMiddleware { enabled, records: Vec::new() }
    }

    /// The observations not yet taken, oldest first.
    pub fn records(&self) -> (records: &Vec<LogRecord>)
        ensures
            records@ == self@.records,
    {
        &self.records
    }

    /// Hands out the observations made so far and starts over with none.
    pub fn take_records(&mut self) -> (records: Vec<LogRecord>)
        ensures
            records@ == old(self)@.records,
            final(self)@ == (LoggingState { records: Seq::empty(), ..old(self)@ }),
    {
        let mut records: Vec<LogRecord> = Vec::new();
        std::mem::swap(&mut records, &mut self.records);
        records
    }
}

impl Middleware for LoggingMiddleware {
    open spec fn wf(&self) -> bool {
        true
    }

    open spec fn request_effect(
        before: Self,
        request: Seq<u8>,
        client_addr: SocketAddress,
        after: Self,
        outcome: MiddlewareOutcome,
    ) -> bool {
        after@ == before@.saw(LogPhase::Request, client_addr, request.len()) && outcome is Continue
    }

    open spec fn response_effect(
        before: Self,
        request: Seq<u8>,
        response: Seq<u8>,
        client_addr: SocketAddress,
        after: Self,
        rewritten: Seq<u8>,
        failure: Option<MiddlewareError>,
    ) -> bool {
        &&& after@ == before@.saw(LogPhase::Response, client_addr, response.len())
        &&& rewritten == response
        &&& failure is None
    }

    open spec fn named(&self, name: Seq<char>) -> bool {
        name == "LoggingMiddleware"@
    }

    fn handle_request(&mut self, request: &DnsMessage, client_addr: SocketAddress) -> (result:
        MiddlewareResult) {
        if self.enabled {
            self.records.push(
                LogRecord { phase: LogPhase::Request, client_addr, length: request.len() },
            );
        }
        Ok(None)
    }

    fn handle_response(
        &mut self,
        request: &DnsMessage,
        response: &mut DnsMessage,
        client_addr: SocketAddress,
    ) -> (verdict: Result<(), MiddlewareError>) {
        if self.enabled {
            self.records.push(
                LogRecord { phase: LogPhase::Response, client_addr, length: response.len() },
            );
        }
        Ok(())
    }

    fn name(&self) -> (name: &str) {
        "LoggingMiddleware"
    }
}

} // verus!
