//! The scanner's statistics: counters of ports and requests, their running
//! averages, and the lines that report them.

use vstd::prelude::*;
use crate::text::{append, decimal, owned, str_eq, to_uppercase, u128_to_decimal, uppercase};
use crate::detector::DetectorResponse;
use crate::utils::spec_format_host;
use crate::worker::ReqTarget;

verus! {

/// How a target is shown; the same as `utils::format_host`.
pub fn format_host(target: &ReqTarget) -> (s: String)
    ensures
        s@ == crate::utils::spec_format_host(target.ip@, target.domain@),
{
    crate::utils::format_host(target)
}

/// The mean of `n` samples whose mean is `avg`, after one more sample `t`,
/// rounded down.
pub open spec fn next_avg(avg: int, n: int, t: int) -> int {
    (avg * n + t) / (n + 1)
}

/// Counters of probed ports.
#[derive(Clone, Copy, Debug, PartialEq, Eq, Structural)]
pub struct PortStatus {
    pub open: u64,
    pub closed: u64,
    /// Running mean of the time taken to find a port open, in ms.
    pub avg_time: u128,
    pub timedout: u64,
}

impl PortStatus {
    /// All counters zero.
    pub fn default() -> (s: PortStatus)
        ensures
            s == (PortStatus { open: 0, closed: 0, avg_time: 0, timedout: 0 }),
    {
        PortStatus { open: 0, closed: 0, avg_time: 0, timedout: 0 }
    }

    /// The ports tested: open and closed.
    pub fn total(&self) -> (t: u64)
        requires
            self.open + self.closed <= u64::MAX,
        ensures
            t == self.open + self.closed,
    {
        self.open + self.closed
    }
}

/// Counters of the requests of one protocol.
#[derive(Clone, Copy, Debug, PartialEq, Eq, Structural)]
pub struct RequestStatus {
    pub successful: u64,
    /// Running mean of the time taken by successful requests, in ms.
    pub avg_time: u128,
    pub failed: u64,
    pub timedout: u64,
}

impl RequestStatus {
    /// All counters zero.
    pub fn default() -> (s: RequestStatus)
        ensures
            s == (RequestStatus { successful: 0, avg_time: 0, failed: 0, timedout: 0 }),
    {
        RequestStatus { successful: 0, avg_time: 0, failed: 0, timedout: 0 }
    }

    /// The sum of the three outcomes.
    pub open spec fn spec_total(&self) -> int {
        self.successful + self.failed + self.timedout
    }

    /// The requests made: successful, failed and timed out.
    pub fn total(&self) -> (t: u64)
        requires
            self.spec_total() <= u64::MAX,
        ensures
            t == self.spec_total(),
    {
        self.successful + self.failed + self.timedout
    }
}

/// Which counters a protocol name selects.
#[derive(Clone, Copy, Debug, PartialEq, Eq, Structural)]
pub enum Protocol {
    Https,
    Http,
    TcpCustom,
}

/// The counters a protocol name selects: `"https"`, `"http"` and
/// `"tcp/custom"` have their own; any other name selects none.
pub open spec fn protocol_of(p: Seq<char>) -> Option<Protocol> {
    if p == "https"@ {
        Some(Protocol::Https)
    } else if p == "http"@ {
        Some(Protocol::Http)
    } else if p == "tcp/custom"@ {
        Some(Protocol::TcpCustom)
    } else {
        None
    }
}

fn select_protocol(p: &str) -> (r: Option<Protocol>)
    ensures
        r == protocol_of(p@),
{
    if str_eq(p, "https") {
        Some(Protocol::Https)
    } else if str_eq(p, "http") {
        Some(Protocol::Http)
    } else if str_eq(p, "tcp/custom") {
        Some(Protocol::TcpCustom)
    } else {
        None
    }
}

/// The counters of a run.
#[derive(Clone, Copy, Debug, PartialEq, Eq, Structural)]
pub struct Stats {
    /// The number of targets to scan; 0 for no limit.
    pub max_targets: u64,
    pub targets: u64,
    pub ports: PortStatus,
    pub https: RequestStatus,
    pub http: RequestStatus,
    pub tcp_custom: RequestStatus,
    /// Responses in which some definition matched.
    pub matching: u64,
}

impl Stats {
    /// The counters of a protocol.
    pub open spec fn status(&self, p: Protocol) -> RequestStatus {
        match p {
            Protocol::Https => self.https,
            Protocol::Http => self.http,
            Protocol::TcpCustom => self.tcp_custom,
        }
    }

    /// These counters with those of one protocol replaced.
    pub open spec fn with_status(self, p: Protocol, r: RequestStatus) -> Stats {
        match p {
            Protocol::Https => Stats { https: r, ..self },
            Protocol::Http => Stats { http: r, ..self },
            Protocol::TcpCustom => Stats { tcp_custom: r, ..self },
        }
    }

    /// The counters after one probed port.
    pub open spec fn after_port(self, status: crate::worker::PortStatus, elapsed_ms: u128) -> Stats {
        Stats {
            ports: PortStatus {
                open: if status == crate::worker::PortStatus::Open { (self.ports.open + 1) as u64 } else { self.ports.open },
                closed: if status != crate::worker::PortStatus::Open { (self.ports.closed + 1) as u64 } else { self.ports.closed },
                avg_time: if status == crate::worker::PortStatus::Open {
                    next_avg(self.ports.avg_time as int, self.ports.open + 1, elapsed_ms as int) as u128
                } else {
                    self.ports.avg_time
                },
                timedout: if status == crate::worker::PortStatus::Timedout { (self.ports.timedout + 1) as u64 } else { self.ports.timedout },
            },
            ..self
        }
    }

    /// Counting the probed port overflows no counter.
    pub open spec fn port_fits(self, status: crate::worker::PortStatus, elapsed_ms: u128) -> bool {
        &&& status == crate::worker::PortStatus::Open ==> self.ports.open + 2 <= u64::MAX
            && self.ports.avg_time * (self.ports.open + 1) + elapsed_ms <= u128::MAX
        &&& status != crate::worker::PortStatus::Open ==> self.ports.closed < u64::MAX
        &&& status == crate::worker::PortStatus::Timedout ==> self.ports.timedout < u64::MAX
    }

    /// The counters after a successful request of a protocol.
    pub open spec fn after_success(self, protocol: Seq<char>, matching: bool) -> Stats {
        Stats {
            matching: if matching { (self.matching + 1) as u64 } else { self.matching },
            ..match protocol_of(protocol) {
                Some(p) => self.with_status(p, RequestStatus { successful: (self.status(p).successful + 1) as u64, ..self.status(p) }),
                None => self,
            }
        }
    }

    /// Counting the successful request overflows no counter.
    pub open spec fn success_fits(self, protocol: Seq<char>, matching: bool) -> bool {
        &&& protocol_of(protocol) matches Some(p) ==> self.status(p).successful < u64::MAX
        &&& matching ==> self.matching < u64::MAX
    }

    /// The counters after a failed request of a protocol.
    pub open spec fn after_failure(self, protocol: Seq<char>) -> Stats {
        match protocol_of(protocol) {
            Some(p) => self.with_status(p, RequestStatus { failed: (self.status(p).failed + 1) as u64, ..self.status(p) }),
            None => self,
        }
    }

    /// Counting the failed request overflows no counter.
    pub open spec fn failure_fits(self, protocol: Seq<char>) -> bool {
        protocol_of(protocol) matches Some(p) ==> self.status(p).failed < u64::MAX
    }

    /// The counters after a timed out request of a protocol.
    pub open spec fn after_timeout(self, protocol: Seq<char>) -> Stats {
        match protocol_of(protocol) {
            Some(p) => self.with_status(p, RequestStatus { timedout: (self.status(p).timedout + 1) as u64, ..self.status(p) }),
            None => self,
        }
    }

    /// Counting the timed out request overflows no counter.
    pub open spec fn timeout_fits(self, protocol: Seq<char>) -> bool {
        protocol_of(protocol) matches Some(p) ==> self.status(p).timedout < u64::MAX
    }

    /// The counters after one more target.
    pub open spec fn after_target(self) -> Stats {
        Stats { targets: (self.targets + 1) as u64, ..self }
    }

    /// The counters after a successful request's time is taken into its
    /// protocol's running mean.
    pub open spec fn after_request_time(self, elapsed_ms: u128, protocol: Seq<char>) -> Stats {
        match protocol_of(protocol) {
            Some(p) => self.with_status(p, RequestStatus {
                avg_time: next_avg(self.status(p).avg_time as int, self.status(p).successful as int, elapsed_ms as int) as u128,
                ..self.status(p)
            }),
            None => self,
        }
    }

    /// Taking the request's time into the running mean overflows nothing.
    pub open spec fn request_time_fits(self, elapsed_ms: u128, protocol: Seq<char>) -> bool {
        protocol_of(protocol) matches Some(p) ==> {
            &&& self.status(p).successful < u64::MAX
            &&& self.status(p).avg_time * self.status(p).successful + elapsed_ms <= u128::MAX
        }
    }

    /// Counters at zero for a run of at most `max_targets` targets.
    pub fn new(max_targets: u64) -> (s: Stats)
        ensures
            s == (Stats {
                max_targets,
                targets: 0,
                ports: PortStatus { open: 0, closed: 0, avg_time: 0, timedout: 0 },
                https: RequestStatus { successful: 0, avg_time: 0, failed: 0, timedout: 0 },
                http: RequestStatus { successful: 0, avg_time: 0, failed: 0, timedout: 0 },
                tcp_custom: RequestStatus { successful: 0, avg_time: 0, failed: 0, timedout: 0 },
                matching: 0,
            }),
    {
        Stats {
            max_targets,
            targets: 0,
            ports: PortStatus::default(),
            https: RequestStatus::default(),
            http: RequestStatus::default(),
            tcp_custom: RequestStatus::default(),
            matching: 0,
        }
    }

    /// Counts one probed port. An open port also updates the running mean:
    /// the count of open ports is raised first, and the mean is then taken
    /// as `next_avg(avg, open, elapsed)` with the raised count.
    pub fn update_port(&mut self, status: crate::worker::PortStatus, elapsed_ms: u128)
        requires
            old(self).port_fits(status, elapsed_ms),
        ensures
            *final(self) == old(self).after_port(status, elapsed_ms),
    {
        if status == crate::worker::PortStatus::Open {
            self.ports.open = self.ports.open + 1;
            let n = self.ports.open as u128;
            self.ports.avg_time = (self.ports.avg_time * n + elapsed_ms) / ((self.ports.open + 1) as u128);
        } else {
            self.ports.closed = self.ports.closed + 1;
        }
        if status == crate::worker::PortStatus::Timedout {
            self.ports.timedout = self.ports.timedout + 1;
        }
    }

    /// Counts a successful request of a protocol, and a matching response.
    /// An unknown protocol counts no request.
    pub fn increment_successful(&mut self, protocol: &str, matching: bool)
        requires
            old(self).success_fits(protocol@, matching),
        ensures
            *final(self) == old(self).after_success(protocol@, matching),
    {
        match select_protocol(protocol) {
            Some(Protocol::Https) => { self.https.successful = self.https.successful + 1; },
            Some(Protocol::Http) => { self.http.successful = self.http.successful + 1; },
            Some(Protocol::TcpCustom) => { self.tcp_custom.successful = self.tcp_custom.successful + 1; },
            None => {},
        }
        if matching {
            self.matching = self.matching + 1;
        }
    }

    /// Counts a failed request of a protocol; an unknown protocol counts none.
    pub fn increment_failed(&mut self, protocol: &str)
        requires
            old(self).failure_fits(protocol@),
        ensures
            *final(self) == old(self).after_failure(protocol@),
    {
        match select_protocol(protocol) {
            Some(Protocol::Https) => { self.https.failed = self.https.failed + 1; },
            Some(Protocol::Http) => { self.http.failed = self.http.failed + 1; },
            Some(Protocol::TcpCustom) => { self.tcp_custom.failed = self.tcp_custom.failed + 1; },
            None => {},
        }
    }

    /// Counts a timed out request of a protocol; an unknown protocol counts
    /// none.
    pub fn increment_timedout(&mut self, protocol: &str)
        requires
            old(self).timeout_fits(protocol@),
        ensures
            *final(self) == old(self).after_timeout(protocol@),
    {
        match select_protocol(protocol) {
            Some(Protocol::Https) => { self.https.timedout = self.https.timedout + 1; },
            Some(Protocol::Http) => { self.http.timedout = self.http.timedout + 1; },
            Some(Protocol::TcpCustom) => { self.tcp_custom.timedout = self.tcp_custom.timedout + 1; },
            None => {},
        }
    }

    /// Counts one more target.
    pub fn increment_targets(&mut self)
        requires
            old(self).targets < u64::MAX,
        ensures
            *final(self) == old(self).after_target(),
    {
        self.targets = self.targets + 1;
    }

    /// Takes a successful request of a protocol that took `elapsed_ms` into
    /// the protocol's running mean: `next_avg(avg, successful, elapsed)`,
    /// with the count of successful requests before this one is counted.
    pub fn update_req_avg_time(&mut self, elapsed_ms: u128, protocol: &str)
        requires
            old(self).request_time_fits(elapsed_ms, protocol@),
        ensures
            *final(self) == old(self).after_request_time(elapsed_ms, protocol@),
    {
        match select_protocol(protocol) {
            Some(Protocol::Https) => {
                self.https.avg_time = (self.https.avg_time * (self.https.successful as u128) + elapsed_ms)
                    / ((self.https.successful + 1) as u128);
            },
            Some(Protocol::Http) => {
                self.http.avg_time = (self.http.avg_time * (self.http.successful as u128) + elapsed_ms)
                    / ((self.http.successful + 1) as u128);
            },
            Some(Protocol::TcpCustom) => {
                self.tcp_custom.avg_time = (self.tcp_custom.avg_time * (self.tcp_custom.successful as u128) + elapsed_ms)
                    / ((self.tcp_custom.successful + 1) as u128);
            },
            None => {},
        }
    }
}

impl Stats {
    /// The counters of a protocol.
    fn status_of(&self, p: Protocol) -> (r: RequestStatus)
        ensures
            r == self.status(p),
    {
        match p {
            Protocol::Https => self.https,
            Protocol::Http => self.http,
            Protocol::TcpCustom => self.tcp_custom,
        }
    }

    /// Whether `update_port` can count this probed port.
    pub fn fits_port(&self, status: crate::worker::PortStatus, elapsed_ms: u128) -> (b: bool)
        ensures
            b == self.port_fits(status, elapsed_ms),
    {
        match status {
            crate::worker::PortStatus::Open => {
                if self.ports.open > u64::MAX - 2 {
                    return false;
                }
                match self.ports.avg_time.checked_mul(self.ports.open as u128 + 1) {
                    Some(x) => x.checked_add(elapsed_ms).is_some(),
                    None => false,
                }
            },
            crate::worker::PortStatus::Closed => self.ports.closed < u64::MAX,
            crate::worker::PortStatus::Timedout => self.ports.closed < u64::MAX && self.ports.timedout < u64::MAX,
        }
    }

    /// Whether `increment_successful` can count this request.
    pub fn fits_success(&self, protocol: &str, matching: bool) -> (b: bool)
        ensures
            b == self.success_fits(protocol@, matching),
    {
        let request_fits = match select_protocol(protocol) {
            Some(p) => self.status_of(p).successful < u64::MAX,
            None => true,
        };
        request_fits && (!matching || self.matching < u64::MAX)
    }

    /// Whether `increment_failed` can count this request.
    pub fn fits_failure(&self, protocol: &str) -> (b: bool)
        ensures
            b == self.failure_fits(protocol@),
    {
        match select_protocol(protocol) {
            Some(p) => self.status_of(p).failed < u64::MAX,
            None => true,
        }
    }

    /// Whether `increment_timedout` can count this request.
    pub fn fits_timeout(&self, protocol: &str) -> (b: bool)
        ensures
            b == self.timeout_fits(protocol@),
    {
        match select_protocol(protocol) {
            Some(p) => self.status_of(p).timedout < u64::MAX,
            None => true,
        }
    }

    /// Whether `update_req_avg_time` can take this request's time.
    pub fn fits_request_time(&self, elapsed_ms: u128, protocol: &str) -> (b: bool)
        ensures
            b == self.request_time_fits(elapsed_ms, protocol@),
    {
        match select_protocol(protocol) {
            Some(p) => {
                let r = self.status_of(p);
                if r.successful == u64::MAX {
                    return false;
                }
                match r.avg_time.checked_mul(r.successful as u128) {
                    Some(x) => x.checked_add(elapsed_ms).is_some(),
                    None => false,
                }
            },
            None => true,
        }
    }
}

impl Stats {
    /// Requests made over all protocols.
    pub open spec fn spec_total(&self) -> int {
        self.https.spec_total() + self.http.spec_total() + self.tcp_custom.spec_total()
    }

    /// Successful requests over all protocols.
    pub open spec fn spec_total_successful(&self) -> int {
        self.https.successful + self.http.successful + self.tcp_custom.successful
    }

    /// Failed requests over all protocols.
    pub open spec fn spec_total_failed(&self) -> int {
        self.https.failed + self.http.failed + self.tcp_custom.failed
    }

    /// Timed out requests over all protocols.
    pub open spec fn spec_total_timedout(&self) -> int {
        self.https.timedout + self.http.timedout + self.tcp_custom.timedout
    }

    /// The mean of the three protocols' running means, rounded down.
    pub open spec fn spec_total_req_avg_time(&self) -> int {
        (self.https.avg_time + self.http.avg_time + self.tcp_custom.avg_time) / 3
    }

    /// Every sum that the report lines show fits its integer type.
    pub open spec fn sums_fit(&self) -> bool {
        &&& self.ports.open + self.ports.closed <= u64::MAX
        &&& self.spec_total() <= u64::MAX
        &&& self.https.avg_time + self.http.avg_time + self.tcp_custom.avg_time <= u128::MAX
    }

    /// Requests made over all protocols.
    pub fn total(&self) -> (t: u64)
        requires
            self.sums_fit(),
        ensures
            t == self.spec_total(),
    {
        self.https.total() + self.http.total() + self.tcp_custom.total()
    }

    /// Successful requests over all protocols.
    pub fn total_successful(&self) -> (t: u64)
        requires
            self.sums_fit(),
        ensures
            t == self.spec_total_successful(),
    {
        self.https.successful + self.http.successful + self.tcp_custom.successful
    }

    /// The mean of the three protocols' running means, rounded down.
    pub fn total_req_avg_time(&self) -> (t: u128)
        requires
            self.sums_fit(),
        ensures
            t == self.spec_total_req_avg_time(),
    {
        (self.https.avg_time + self.http.avg_time + self.tcp_custom.avg_time) / 3
    }

    /// Failed requests over all protocols.
    pub fn total_failed(&self) -> (t: u64)
        requires
            self.sums_fit(),
        ensures
            t == self.spec_total_failed(),
    {
        self.https.failed + self.http.failed + self.tcp_custom.failed
    }

    /// Timed out requests over all protocols.
    pub fn total_timedout(&self) -> (t: u64)
        requires
            self.sums_fit(),
        ensures
            t == self.spec_total_timedout(),
    {
        self.https.timedout + self.http.timedout + self.tcp_custom.timedout
    }
}

fn push_num(s: &mut String, label: &str, n: u128)
    ensures
        final(s)@ == old(s)@ + label@ + decimal(n as nat),
{
    append(s, label);
    let d = u128_to_decimal(n);
    append(s, d.as_str());
}

/// The report line of the targets.
pub open spec fn targets_line(s: Stats) -> Seq<char> {
    "Targets: "@ + decimal(s.targets as nat)
}

/// The report line of the ports.
pub open spec fn ports_line(s: Stats) -> Seq<char> {
    "Ports [tested: "@ + decimal((s.ports.open + s.ports.closed) as nat) + " open: "@ + decimal(s.ports.open as nat)
        + " closed: "@ + decimal(s.ports.closed as nat) + " avg_time: "@ + decimal(s.ports.avg_time as nat)
        + "ms timedout: "@ + decimal(s.ports.timedout as nat) + "]"@
}

/// The report line of all requests.
pub open spec fn requests_line(s: Stats) -> Seq<char> {
    "Requests [total: "@ + decimal(s.spec_total() as nat) + " successful: "@ + decimal(s.spec_total_successful() as nat)
        + " avg_time: "@ + decimal(s.spec_total_req_avg_time() as nat) + "ms failed: "@
        + decimal(s.spec_total_failed() as nat) + " timedout: "@ + decimal(s.spec_total_timedout() as nat)
        + " matching: "@ + decimal(s.matching as nat) + "]"@
}

/// The report line of one protocol, opened by `head`.
pub open spec fn protocol_line(head: Seq<char>, r: RequestStatus) -> Seq<char> {
    head + " [successful: "@ + decimal(r.successful as nat) + " avg_time: "@ + decimal(r.avg_time as nat)
        + "ms failed: "@ + decimal(r.failed as nat) + " timedout: "@ + decimal(r.timedout as nat) + "]"@
}

fn status_line(head: &str, r: &RequestStatus) -> (l: String)
    ensures
        l@ == protocol_line(head@, *r),
{
    let mut l = owned(head);
    push_num(&mut l, " [successful: ", r.successful as u128);
    push_num(&mut l, " avg_time: ", r.avg_time);
    push_num(&mut l, "ms failed: ", r.failed as u128);
    push_num(&mut l, " timedout: ", r.timedout as u128);
    append(&mut l, "]");
    l
}

impl Stats {
    /// The six report lines: targets, ports, all requests, then the
    /// requests of `tcp/custom`, `http` and `https`.
    pub fn messages(&self) -> (m: Vec<String>)
        requires
            self.sums_fit(),
        ensures
            m@.len() == 6,
            m@[0]@ == targets_line(*self),
            m@[1]@ == ports_line(*self),
            m@[2]@ == requests_line(*self),
            m@[3]@ == protocol_line("Tcp/custom"@, self.tcp_custom),
            m@[4]@ == protocol_line("Http"@, self.http),
            m@[5]@ == protocol_line("Https"@, self.https),
    {
        let mut m: Vec<String> = Vec::new();
        let mut l0 = owned("Targets: ");
        let d = u128_to_decimal(self.targets as u128);
        append(&mut l0, d.as_str());
        m.push(l0);

        let mut l1 = owned("Ports [tested: ");
        let d = u128_to_decimal(self.ports.total() as u128);
        append(&mut l1, d.as_str());
        push_num(&mut l1, " open: ", self.ports.open as u128);
        push_num(&mut l1, " closed: ", self.ports.closed as u128);
        push_num(&mut l1, " avg_time: ", self.ports.avg_time);
        push_num(&mut l1, "ms timedout: ", self.ports.timedout as u128);
        append(&mut l1, "]");
        m.push(l1);

        let mut l2 = owned("Requests [total: ");
        let d = u128_to_decimal(self.total() as u128);
        append(&mut l2, d.as_str());
        push_num(&mut l2, " successful: ", self.total_successful() as u128);
        push_num(&mut l2, " avg_time: ", self.total_req_avg_time());
        push_num(&mut l2, "ms failed: ", self.total_failed() as u128);
        push_num(&mut l2, " timedout: ", self.total_timedout() as u128);
        push_num(&mut l2, " matching: ", self.matching as u128);
        append(&mut l2, "]");
        m.push(l2);

        m.push(status_line("Tcp/custom", &self.tcp_custom));
        m.push(status_line("Http", &self.http));
        m.push(status_line("Https", &self.https));
        m
    }

    /// The error reported when the targets ran out before `max_targets`
    /// were scanned; `None` when there is a limit and it was reached, or
    /// there is none.
    pub fn unfinished_message(&self) -> (m: Option<String>)
        ensures
            m is Some == (self.max_targets != 0 && self.targets < self.max_targets),
            m matches Some(t) ==> t@ == "All the targets have been consumed before reaching the specified max-targets number. targets: "@
                + decimal(self.targets as nat) + " max_targets: "@ + decimal(self.max_targets as nat),
    {
        if self.max_targets != 0 && self.targets < self.max_targets {
            let mut t = owned("All the targets have been consumed before reaching the specified max-targets number. targets: ");
            let d = u128_to_decimal(self.targets as u128);
            append(&mut t, d.as_str());
            push_num(&mut t, " max_targets: ", self.max_targets as u128);
            Some(t)
        } else {
            None
        }
    }
}

/// A running mean stays within any bounds that hold of the mean so far and
/// of the new sample.
pub proof fn lemma_running_mean_bounded(avg: int, n: int, t: int, lo: int, hi: int)
    requires
        n >= 0,
        lo <= avg <= hi,
        lo <= t <= hi,
    ensures
        lo <= next_avg(avg, n, t) <= hi,
{
    assert(lo * n <= avg * n <= hi * n) by (nonlinear_arith)
        requires
            n >= 0,
            lo <= avg <= hi,
    ;
    let s = avg * n + t;
    assert(lo * (n + 1) <= s <= hi * (n + 1)) by (nonlinear_arith)
        requires
            s == avg * n + t,
            lo * n <= avg * n <= hi * n,
            lo <= t <= hi,
    ;
    assert(lo <= s / (n + 1) <= hi) by (nonlinear_arith)
        requires
            n + 1 > 0,
            lo * (n + 1) <= s <= hi * (n + 1),
    ;
}

/// Counting a request of a known protocol (`https`, `http`, `tcp/custom`)
/// raises exactly that protocol's counter of the kind by one, so the total
/// of requests grows by one, and leaves the other protocols and the ports
/// as they were; a request of any other protocol changes no request
/// counter. A successful request that matched also raises the count of
/// matching responses by one.
pub proof fn lemma_request_counted(s: Stats, protocol: Seq<char>, matching: bool)
    requires
        s.success_fits(protocol, matching),
        s.failure_fits(protocol),
        s.timeout_fits(protocol),
    ensures
        ({
            let ok = s.after_success(protocol, matching);
            let failed = s.after_failure(protocol);
            let timedout = s.after_timeout(protocol);
            let known = protocol == "https"@ || protocol == "http"@ || protocol == "tcp/custom"@;
            &&& known ==> ok.spec_total() == s.spec_total() + 1
            &&& known ==> ok.spec_total_successful() == s.spec_total_successful() + 1
            &&& known ==> failed.spec_total() == s.spec_total() + 1
            &&& known ==> failed.spec_total_failed() == s.spec_total_failed() + 1
            &&& known ==> timedout.spec_total() == s.spec_total() + 1
            &&& known ==> timedout.spec_total_timedout() == s.spec_total_timedout() + 1
            &&& !known ==> ok.spec_total() == s.spec_total() && failed == s && timedout == s
            &&& protocol == "https"@ ==> ok.https.successful == s.https.successful + 1 && ok.http == s.http
                && ok.tcp_custom == s.tcp_custom && failed.https.failed == s.https.failed + 1
                && timedout.https.timedout == s.https.timedout + 1
            &&& protocol == "http"@ ==> ok.http.successful == s.http.successful + 1 && ok.https == s.https
                && ok.tcp_custom == s.tcp_custom && failed.http.failed == s.http.failed + 1
                && timedout.http.timedout == s.http.timedout + 1
            &&& protocol == "tcp/custom"@ ==> ok.tcp_custom.successful == s.tcp_custom.successful + 1
                && ok.https == s.https && ok.http == s.http && failed.tcp_custom.failed == s.tcp_custom.failed + 1
                && timedout.tcp_custom.timedout == s.tcp_custom.timedout + 1
            &&& ok.matching == s.matching + (if matching { 1int } else { 0int })
            &&& ok.ports == s.ports && ok.targets == s.targets && ok.max_targets == s.max_targets
        }),
{
    reveal_strlit("https");
    reveal_strlit("http");
    reveal_strlit("tcp/custom");
    if protocol == "http"@ {
        assert(protocol.len() != "https"@.len());
        assert(protocol_of(protocol) == Some(Protocol::Http));
    }
    if protocol == "tcp/custom"@ {
        assert(protocol.len() != "https"@.len());
        assert(protocol.len() != "http"@.len());
        assert(protocol_of(protocol) == Some(Protocol::TcpCustom));
    }
}

/// A probed port is counted once: an open port raises the open count by
/// one, any other the closed count, and a timed out one the timed out
/// count too; the request counters stay as they were.
pub proof fn lemma_port_counted(s: Stats, status: crate::worker::PortStatus, elapsed_ms: u128)
    requires
        s.port_fits(status, elapsed_ms),
    ensures
        ({
            let n = s.after_port(status, elapsed_ms);
            &&& n.ports.open + n.ports.closed == s.ports.open + s.ports.closed + 1
            &&& (status == crate::worker::PortStatus::Open) == (n.ports.open == s.ports.open + 1)
            &&& n.ports.timedout == s.ports.timedout + (if status == crate::worker::PortStatus::Timedout { 1int } else { 0int })
            &&& n.https == s.https && n.http == s.http && n.tcp_custom == s.tcp_custom
            &&& n.targets == s.targets && n.matching == s.matching
        }),
{
}

/// Taking a request's time into its protocol's running mean keeps the mean
/// between the old mean and the new time (so a constant time keeps it), and
/// leaves every counter and the other protocols' means as they were.
pub proof fn lemma_request_time_mean(s: Stats, elapsed_ms: u128, protocol: Seq<char>)
    requires
        s.request_time_fits(elapsed_ms, protocol),
    ensures
        ({
            let n = s.after_request_time(elapsed_ms, protocol);
            &&& protocol == "https"@ ==> min_of(s.https.avg_time as int, elapsed_ms as int) <= n.https.avg_time
                <= max_of(s.https.avg_time as int, elapsed_ms as int) && n.http == s.http && n.tcp_custom == s.tcp_custom
            &&& protocol == "http"@ ==> min_of(s.http.avg_time as int, elapsed_ms as int) <= n.http.avg_time
                <= max_of(s.http.avg_time as int, elapsed_ms as int) && n.https == s.https && n.tcp_custom == s.tcp_custom
            &&& protocol == "tcp/custom"@ ==> min_of(s.tcp_custom.avg_time as int, elapsed_ms as int) <= n.tcp_custom.avg_time
                <= max_of(s.tcp_custom.avg_time as int, elapsed_ms as int) && n.https == s.https && n.http == s.http
            &&& n.spec_total() == s.spec_total() && n.matching == s.matching && n.ports == s.ports
            &&& n.https.successful == s.https.successful && n.http.successful == s.http.successful
            &&& n.tcp_custom.successful == s.tcp_custom.successful
        }),
{
    reveal_strlit("https");
    reveal_strlit("http");
    reveal_strlit("tcp/custom");
    if protocol == "http"@ {
        assert(protocol.len() != "https"@.len());
    }
    if protocol == "tcp/custom"@ {
        assert(protocol.len() != "https"@.len());
        assert(protocol.len() != "http"@.len());
    }
    let t = elapsed_ms as int;
    match protocol_of(protocol) {
        Some(p) => {
            let r = s.status(p);
            let a = r.avg_time as int;
            lemma_running_mean_bounded(a, r.successful as int, t, min_of(a, t), max_of(a, t));
            let m = next_avg(a, r.successful as int, t);
            assert(0 <= m <= u128::MAX);
            assert((m as u128) as int == m);
        },
        None => {},
    }
}

/// The smaller of two integers.
pub open spec fn min_of(a: int, b: int) -> int {
    if a <= b { a } else { b }
}

/// The larger of two integers.
pub open spec fn max_of(a: int, b: int) -> int {
    if a <= b { b } else { a }
}

/// The text of the line reporting an internal error.
pub open spec fn int_err_text(message: Seq<char>) -> Seq<char> {
    "[ERROR] "@ + message
}

/// The text of the line reporting a response: protocol in upper case, host,
/// port and the response's length in bytes (of its UTF-8 encoding).
pub open spec fn response_text(target: ReqTarget) -> Seq<char> {
    "[RESPONSE]["@ + uppercase(target.protocol@) + "]["@ + spec_format_host(target.ip@, target.domain@)
        + ":"@ + decimal(target.port as nat) + "] Received a response. Length: "@
        + decimal((vstd::utf8::encode_utf8(target.response@).len() as usize) as nat)
}

/// The text of the line reporting a timed out request.
pub open spec fn timeout_text(target: ReqTarget) -> Seq<char> {
    "[TIMEOUT]["@ + uppercase(target.protocol@) + "]["@ + target.domain@ + ":"@
        + decimal(target.port as nat) + "] - Request timeout"@
}

/// The text of the line reporting a failed request: its context, and the
/// error after `": "` where there is one.
pub open spec fn fail_text(target: ReqTarget, error_context: Seq<char>, error: Option<String>) -> Seq<char> {
    "[FAIL]["@ + uppercase(target.protocol@) + "]["@ + target.domain@ + ":"@
        + decimal(target.port as nat) + "] - "@ + error_context + match error {
            Some(e) => ": "@ + e@,
            None => Seq::empty(),
        }
}

/// The text of the line reporting a finding on a target.
pub open spec fn match_text(target: ReqTarget, service: Seq<char>, version: Seq<char>, description: Seq<char>) -> Seq<char> {
    "[MATCH]["@ + spec_format_host(target.ip@, target.domain@) + "] service: "@ + service
        + " version: "@ + version + " description: "@ + description
}

/// The text of the line reporting an open port of an address.
pub open spec fn open_port_text(ip: Seq<char>, port: u16) -> Seq<char> {
    "[OPEN PORTS]["@ + ip + "] ["@ + decimal(port as nat) + "]"@
}

/// The line reporting an internal error.
pub fn int_err_line(message: &str) -> (l: String)
    ensures
        l@ == int_err_text(message@),
{
    let mut l = owned("[ERROR] ");
    append(&mut l, message);
    l
}

/// The line reporting a response.
pub fn response_line(target: &ReqTarget) -> (l: String)
    ensures
        l@ == response_text(*target),
{
    let mut l = owned("[RESPONSE][");
    let p = to_uppercase(target.protocol.as_str());
    append(&mut l, p.as_str());
    append(&mut l, "][");
    let h = format_host(target);
    append(&mut l, h.as_str());
    push_num(&mut l, ":", target.port as u128);
    push_num(&mut l, "] Received a response. Length: ", target.response.as_str().len() as u128);
    l
}

/// The line reporting a timed out request.
pub fn timeout_line(target: &ReqTarget) -> (l: String)
    ensures
        l@ == timeout_text(*target),
{
    let mut l = owned("[TIMEOUT][");
    let p = to_uppercase(target.protocol.as_str());
    append(&mut l, p.as_str());
    append(&mut l, "][");
    append(&mut l, target.domain.as_str());
    push_num(&mut l, ":", target.port as u128);
    append(&mut l, "] - Request timeout");
    l
}

/// The line reporting a failed request.
pub fn fail_line(target: &ReqTarget, error_context: &str, error: &Option<String>) -> (l: String)
    ensures
        l@ == fail_text(*target, error_context@, *error),
{
    let mut l = owned("[FAIL][");
    let p = to_uppercase(target.protocol.as_str());
    append(&mut l, p.as_str());
    append(&mut l, "][");
    append(&mut l, target.domain.as_str());
    push_num(&mut l, ":", target.port as u128);
    append(&mut l, "] - ");
    append(&mut l, error_context);
    match error {
        Some(e) => {
            append(&mut l, ": ");
            append(&mut l, e.as_str());
        },
        None => {
            assert(l@ =~= l@ + Seq::<char>::empty());
        },
    }
    l
}

/// The line reporting a finding.
pub fn match_line(dr: &DetectorResponse) -> (l: String)
    ensures
        l@ == match_text(dr.target, dr.service@, dr.version@, dr.description@),
{
    let mut l = owned("[MATCH][");
    let h = format_host(&dr.target);
    append(&mut l, h.as_str());
    append(&mut l, "] service: ");
    append(&mut l, dr.service.as_str());
    append(&mut l, " version: ");
    append(&mut l, dr.version.as_str());
    append(&mut l, " description: ");
    append(&mut l, dr.description.as_str());
    l
}

/// The line reporting an open port of an address.
pub fn open_port_line(ip: &str, port: u16) -> (l: String)
    ensures
        l@ == open_port_text(ip@, port),
{
    let mut l = owned("[OPEN PORTS][");
    append(&mut l, ip);
    push_num(&mut l, "] [", port as u128);
    append(&mut l, "]");
    l
}

} // verus!
