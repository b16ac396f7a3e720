//! The stage that counts requests and responses.

use vstd::prelude::*;
use crate::addr::SocketAddress;
use crate::middleware::{DnsMessage, Middleware, MiddlewareError, MiddlewareOutcome, MiddlewareResult};
use crate::text::{decimal, decimal_text};

verus! {

/// The counters at one moment.
#[derive(Debug, Clone, Copy, PartialEq, Eq, Structural)]
pub struct MetricsSnapshot {
    pub total_requests: u64,
    pub total_responses: u64,
    pub blocked_requests: u64,
    pub rate_limited_requests: u64,
}

/// The metrics stage as a mathematical value.
pub ghost struct MetricsState {
    pub enabled: bool,
    pub counters: MetricsSnapshot,
}

/// A counter one step on. It starts over from zero past the largest value
/// it can hold.
pub open spec fn bumped(counter: u64) -> u64 {
    if counter == u64::MAX {
        0
    } else {
        (counter + 1) as u64
    }
}

/// The lines of the report on `counters`: a heading, one line for each
/// counter, and a closing rule.
pub open spec fn report_lines(counters: MetricsSnapshot) -> Seq<Seq<char>> {
    seq![
        "=== DNS服务器指标 ==="@,
        "总请求数: "@ + decimal(counters.total_requests as nat),
        "总响应数: "@ + decimal(counters.total_responses as nat),
        "被阻止请求数: "@ + decimal(counters.blocked_requests as nat),
        "被限流请求数: "@ + decimal(counters.rate_limited_requests as nat),
        "=================="@,
    ]
}

impl MetricsState {
    /// The stage after it has seen a request.
    pub open spec fn saw_request(self) -> MetricsState {
        if self.enabled {
            MetricsState {
                counters: MetricsSnapshot {
                    total_requests: bumped(self.counters.total_requests),
                    ..self.counters
                },
                ..self
            }
        } else {
            self
        }
    }

    /// The stage after it has seen a response.
    pub open spec fn saw_response(self) -> MetricsState {
        if self.enabled {
            MetricsState {
                counters: MetricsSnapshot {
                    total_responses: bumped(self.counters.total_responses),
                    ..self.counters
                },
                ..self
            }
        } else {
            self
        }
    }
}

/// Counts the requests and the responses that pass through it. It never
/// rewrites and never rejects.
pub struct MetricsMiddleware {
    enabled: bool,
    total_requests: u64,
    total_responses: u64,
    blocked_requests: u64,
    rate_limited_requests: u64,
}

impl View for MetricsMiddleware {
    type V = MetricsState;

    closed spec fn view(&self) -> MetricsState {
        MetricsState {
            enabled: self.enabled,
            counters: MetricsSnapshot {
                total_requests: self.total_requests,
                total_responses: self.total_responses,
                blocked_requests: self.blocked_requests,
                rate_limited_requests: self.rate_limited_requests,
            },
        }
    }
}

impl MetricsMiddleware {
    /// A stage with every counter at zero.
    pub fn new(enabled: bool) -> (stage: MetricsMiddleware)
        ensures
            stage@ == (MetricsState {
                enabled,
                counters: MetricsSnapshot {
                    total_requests: 0,
                    total_responses: 0,
                    blocked_requests: 0,
                    rate_limited_requests: 0,
                },
            }),
    {
        MetricsMiddleware {
            enabled,
            total_requests: 0,
            total_responses: 0,
            blocked_requests: 0,
            rate_limited_requests: 0,
        }
    }

    /// The counters as they stand.
    pub fn get_metrics(&self) -> (snapshot: MetricsSnapshot)
        ensures
            snapshot == self@.counters,
    {
        MetricsSnapshot {
            total_requests: self.total_requests,
            total_responses: self.total_responses,
            blocked_requests: self.blocked_requests,
            rate_limited_requests: self.rate_limited_requests,
        }
    }
}

impl MetricsMiddleware {
    /// Writes the report on the counters as they stand, line by line, for
    /// the caller to print.
    pub fn print_metrics(&self) -> (lines: Vec<String>)
        ensures
            lines@.len() == 6,
            forall|i: int|
                0 <= i < 6 ==> (#[trigger] lines@[i])@ == report_lines(self@.counters)[i],
    {
        let metrics = self.get_metrics();
        let mut lines: Vec<String> = Vec::new();
        lines.push("=== DNS服务器指标 ===".to_owned());
        lines.push(labelled("总请求数: ", metrics.total_requests));
        lines.push(labelled("总响应数: ", metrics.total_responses));
        lines.push(labelled("被阻止请求数: ", metrics.blocked_requests));
        lines.push(labelled("被限流请求数: ", metrics.rate_limited_requests));
        lines.push("==================".to_owned());
        lines
    }
}

/// A label followed by a count.
fn labelled(label: &str, count: u64) -> (line: String)
    ensures
        line@ == label@ + decimal(count as nat),
{
    let mut line = label.to_owned();
    line.append(decimal_text(count).as_str());
    line
}

impl Middleware for MetricsMiddleware {
    open spec fn wf(&self) -> bool {
        true
    }

    open spec fn request_effect(
        before: Self,
        request: Seq<u8>,
        client_addr: SocketAddress,
        after: Self,
        outcome: MiddlewareOutcome,
    ) -> bool {
        after@ == before@.saw_request() && outcome is Continue
    }

    open spec fn response_effect(
        before: Self,
        request: Seq<u8>,
        response: Seq<u8>,
        client_addr: SocketAddress,
        after: Self,
        rewritten: Seq<u8>,
        failure: Option<MiddlewareError>,
    ) -> bool {
        after@ == before@.saw_response() && rewritten == response && failure is None
    }

    open spec fn named(&self, name: Seq<char>) -> bool {
        name == "MetricsMiddleware"@
    }

    fn handle_request(&mut self, request: &DnsMessage, client_addr: SocketAddress) -> (result:
        MiddlewareResult) {
        if self.enabled {
            self.total_requests = self.total_requests.wrapping_add(1);
        }
        Ok(None)
    }

    fn handle_response(
        &mut self,
        request: &DnsMessage,
        response: &mut DnsMessage,
        client_addr: SocketAddress,
    ) -> (verdict: Result<(), MiddlewareError>) {
        if self.enabled {
            self.total_responses = self.total_responses.wrapping_add(1);
        }
        Ok(())
    }

    fn name(&self) -> (name: &str) {
        "MetricsMiddleware"
    }
}

} // verus!
