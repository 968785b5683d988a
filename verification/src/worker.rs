//! Targets, probes and the messages the scanning worker sends.

use vstd::prelude::*;
use crate::conf::Definition;
use crate::net::{HttpsOptions, HttpsOptionsView, headers_view};
use crate::text::{owned, str_eq};

verus! {

#[verifier::external_type_specification]
#[verifier::external_body]
pub struct ExInstant(std::time::Instant);

/// The current time: `std::time::Instant::now`. Nothing is claimed of it.
#[verifier::external_body]
pub(crate) fn now() -> std::time::Instant {
    std::time::Instant::now()
}

/// A request target, and the response it gave once there is one.
pub struct ReqTarget {
    pub domain: String,
    pub ip: String,
    pub port: u16,
    pub protocol: String,
    pub response: String,
    pub time: std::time::Instant,
}

impl Clone for ReqTarget {
    fn clone(&self) -> (r: Self)
        ensures
            r == *self,
    {
        ReqTarget {
            domain: self.domain.clone(),
            ip: self.ip.clone(),
            port: self.port,
            protocol: self.protocol.clone(),
            response: self.response.clone(),
            time: self.time,
        }
    }
}

impl ReqTarget {
    /// A target with every text empty, port 0, stamped with the current time.
    pub fn default() -> (t: ReqTarget)
        ensures
            t.domain@ == Seq::<char>::empty(),
            t.ip@ == Seq::<char>::empty(),
            t.port == 0,
            t.protocol@ == Seq::<char>::empty(),
            t.response@ == Seq::<char>::empty(),
    {
        ReqTarget {
            domain: String::new(),
            ip: String::new(),
            port: 0,
            protocol: String::new(),
            response: String::new(),
            time: now(),
        }
    }

    /// A target for a domain at an address, otherwise as `default`.
    pub fn new(domain: String, ip: String) -> (t: ReqTarget)
        ensures
            t.domain@ == domain@,
            t.ip@ == ip@,
            t.port == 0,
            t.protocol@ == Seq::<char>::empty(),
            t.response@ == Seq::<char>::empty(),
    {
        let d = ReqTarget::default();
        ReqTarget { domain, ip, ..d }
    }
}

/// What probing a port found.
#[derive(Clone, Copy, Debug, PartialEq, Eq, Structural)]
pub enum PortStatus {
    Open,
    Closed,
    Timedout,
}

/// The outcome of probing one port of an address.
pub struct PortTarget {
    pub ip: String,
    pub port: u16,
    pub status: PortStatus,
    pub time: std::time::Instant,
}

/// A line of a DNS dataset.
pub struct DatasetRecord {
    pub name: String,
    pub record_type: String,
    pub value: String,
}

/// What the worker reports.
pub enum WorkerMessage {
    PortTarget(PortTarget),
    Response(ReqTarget),
    Fail(ReqTarget, String, Option<String>),
    Timeout(ReqTarget),
    NextTarget,
    Shutdown,
}

/// A sequence without its repeated elements: each element kept where it
/// first occurs.
pub open spec fn dedup<T>(s: Seq<T>) -> Seq<T>
    decreases s.len(),
{
    if s.len() == 0 {
        Seq::empty()
    } else {
        let d = dedup(s.drop_last());
        if d.contains(s.last()) {
            d
        } else {
            d.push(s.last())
        }
    }
}

/// No element occurs twice.
pub open spec fn no_duplicates<T>(s: Seq<T>) -> bool {
    forall|i: int, j: int| 0 <= i < j < s.len() ==> s[i] != s[j]
}

/// Removing repetitions keeps every element and repeats none.
pub proof fn lemma_dedup<T>(s: Seq<T>)
    ensures
        no_duplicates(dedup(s)),
        forall|x: T| dedup(s).contains(x) <==> s.contains(x),
    decreases s.len(),
{
    if s.len() > 0 {
        let t = s.drop_last();
        let y = s.last();
        lemma_dedup(t);
        let d = dedup(t);
        assert forall|x: T| dedup(s).contains(x) <==> s.contains(x) by {
            if s.contains(x) {
                let k = choose|k: int| 0 <= k < s.len() && s[k] == x;
                if k < s.len() - 1 {
                    assert(t[k] == x);
                    assert(t.contains(x));
                    assert(d.contains(x));
                    let m = choose|m: int| 0 <= m < d.len() && d[m] == x;
                    assert(dedup(s)[m] == x);
                } else {
                    assert(x == y);
                    if d.contains(x) {
                        assert(dedup(s) == d);
                    } else {
                        assert(dedup(s)[d.len() as int] == x);
                    }
                }
            }
            if dedup(s).contains(x) {
                let k = choose|k: int| 0 <= k < dedup(s).len() && dedup(s)[k] == x;
                if k < d.len() {
                    assert(d[k] == x);
                    assert(d.contains(x));
                    assert(t.contains(x));
                    let m = choose|m: int| 0 <= m < t.len() && t[m] == x;
                    assert(s[m] == x);
                } else {
                    assert(x == y);
                    assert(s[s.len() - 1] == x);
                }
            }
        }
        if !d.contains(y) {
            assert forall|i: int, j: int| 0 <= i < j < dedup(s).len() implies dedup(s)[i] != dedup(s)[j] by {
                if j == d.len() {
                    assert(dedup(s)[i] == d[i]);
                    assert(dedup(s)[j] == y);
                    if d[i] == y {
                        assert(d.contains(y));
                    }
                }
            }
        }
    }
}

proof fn lemma_dedup_push<T>(s: Seq<T>, x: T)
    ensures
        dedup(s.push(x)) == (if dedup(s).contains(x) { dedup(s) } else { dedup(s).push(x) }),
{
    assert(s.push(x).drop_last() =~= s);
}

/// The ports of the definitions, in order, repetitions included.
pub open spec fn all_ports(defs: Seq<Definition>) -> Seq<u16>
    decreases defs.len(),
{
    if defs.len() == 0 {
        Seq::empty()
    } else {
        all_ports(defs.drop_last()) + defs.last().options.ports@
    }
}

fn contains_port(ports: &Vec<u16>, port: u16) -> (r: bool)
    ensures
        r == ports@.contains(port),
{
    let mut i: usize = 0;
    while i < ports.len()
        invariant
            i <= ports@.len(),
            forall|k: int| 0 <= k < i ==> ports@[k] != port,
        decreases ports@.len() - i,
    {
        if ports[i] == port {
            assert(ports@[i as int] == port);
            return true;
        }
        i = i + 1;
    }
    false
}

/// The ports to probe on a target: every port of every definition, once
/// each, in the order they first occur.
pub fn unique_ports(defs: &[Definition]) -> (r: Vec<u16>)
    ensures
        r@ == dedup(all_ports(defs@)),
{
    let mut r: Vec<u16> = Vec::new();
    let mut i: usize = 0;
    while i < defs.len()
        invariant
            i <= defs@.len(),
            r@ == dedup(all_ports(defs@.take(i as int))),
        decreases defs@.len() - i,
    {
        let ports = &defs[i].options.ports;
        let ghost before = all_ports(defs@.take(i as int));
        let mut j: usize = 0;
        while j < ports.len()
            invariant
                i < defs@.len(),
                ports@ == defs@[i as int].options.ports@,
                j <= ports@.len(),
                r@ == dedup(before + ports@.take(j as int)),
            decreases ports@.len() - j,
        {
            let p = ports[j];
            proof {
                lemma_dedup_push(before + ports@.take(j as int), p);
                assert(before + ports@.take(j + 1) =~= (before + ports@.take(j as int)).push(p));
            }
            if !contains_port(&r, p) {
                r.push(p);
            }
            j = j + 1;
        }
        assert(defs@.take(i + 1).drop_last() =~= defs@.take(i as int));
        assert(ports@.take(ports@.len() as int) =~= ports@);
        i = i + 1;
    }
    assert(defs@.take(defs@.len() as int) =~= defs@);
    r
}

/// Whether the probes found a port open: no probe of that port found
/// anything else.
pub open spec fn found_open(probes: Seq<PortTarget>, port: u16) -> bool {
    forall|k: int| 0 <= k < probes.len() && probes[k].port == port ==> probes[k].status == PortStatus::Open
}

/// The first `n` of `ports` that the probes found open, in order.
pub open spec fn kept_open(ports: Seq<u16>, probes: Seq<PortTarget>, n: nat) -> Seq<u16>
    decreases n,
{
    if n == 0 {
        Seq::empty()
    } else if found_open(probes, ports[n - 1]) {
        kept_open(ports, probes, (n - 1) as nat).push(ports[n - 1])
    } else {
        kept_open(ports, probes, (n - 1) as nat)
    }
}

/// The ports found open: those of `ports` for which no probe found
/// anything but an open port.
pub fn open_ports(ports: &Vec<u16>, probes: &Vec<PortTarget>) -> (r: Vec<u16>)
    ensures
        r@ == kept_open(ports@, probes@, ports@.len()),
{
    let mut r: Vec<u16> = Vec::new();
    let mut i: usize = 0;
    while i < ports.len()
        invariant
            i <= ports@.len(),
            r@ == kept_open(ports@, probes@, i as nat),
        decreases ports@.len() - i,
    {
        let p = ports[i];
        let mut ok = true;
        let mut k: usize = 0;
        while k < probes.len()
            invariant
                k <= probes@.len(),
                ok == (forall|m: int| 0 <= m < k && probes@[m].port == p ==> probes@[m].status == PortStatus::Open),
            decreases probes@.len() - k,
        {
            if probes[k].port == p && probes[k].status != PortStatus::Open {
                ok = false;
            }
            k = k + 1;
        }
        if ok {
            r.push(p);
        }
        i = i + 1;
    }
    r
}

proof fn lemma_kept_open(ports: Seq<u16>, probes: Seq<PortTarget>, n: nat)
    requires
        n <= ports.len(),
    ensures
        forall|x: u16| #[trigger] kept_open(ports, probes, n).contains(x) <==> (ports.take(n as int).contains(x)
            && forall|k: int| 0 <= k < probes.len() && probes[k].port == x ==> probes[k].status == PortStatus::Open),
    decreases n,
{
    if n > 0 {
        lemma_kept_open(ports, probes, (n - 1) as nat);
        let prev = kept_open(ports, probes, (n - 1) as nat);
        let cur = kept_open(ports, probes, n);
        let y = ports[n - 1];
        assert(ports.take(n as int) =~= ports.take(n - 1).push(y));
        assert forall|x: u16| #[trigger] cur.contains(x) <==> (ports.take(n as int).contains(x)
            && forall|k: int| 0 <= k < probes.len() && probes[k].port == x ==> probes[k].status == PortStatus::Open) by {
            if cur.contains(x) {
                let w = choose|w: int| 0 <= w < cur.len() && cur[w] == x;
                if w < prev.len() {
                    assert(prev[w] == x);
                    assert(prev.contains(x));
                    let m = choose|m: int| 0 <= m < n - 1 && #[trigger] ports.take(n - 1)[m] == x;
                    assert(ports.take(n as int)[m] == x);
                } else {
                    assert(x == y);
                    assert(ports.take(n as int)[n - 1] == x);
                }
            }
            if ports.take(n as int).contains(x)
                && forall|k: int| 0 <= k < probes.len() && probes[k].port == x ==> probes[k].status == PortStatus::Open {
                let m = choose|m: int| 0 <= m < n && #[trigger] ports.take(n as int)[m] == x;
                if m < n - 1 {
                    assert(ports.take(n - 1)[m] == x);
                    assert(prev.contains(x));
                    let w = choose|w: int| 0 <= w < prev.len() && prev[w] == x;
                    assert(cur[w] == prev[w]);
                } else {
                    assert(x == y);
                    assert(found_open(probes, y));
                    assert(cur[prev.len() as int] == x);
                }
            }
        }
    }
}

/// The ports kept as open are exactly the ports asked about that no probe
/// found anything but open: a port with a closed or timed out probe is
/// dropped, and a port no probe speaks against is kept.
pub proof fn lemma_open_ports(ports: Seq<u16>, probes: Seq<PortTarget>)
    ensures
        forall|x: u16| #[trigger] kept_open(ports, probes, ports.len()).contains(x) <==> (ports.contains(x)
            && forall|k: int| 0 <= k < probes.len() && probes[k].port == x ==> probes[k].status == PortStatus::Open),
{
    lemma_kept_open(ports, probes, ports.len());
    assert(ports.take(ports.len() as int) =~= ports);
}

/// A request the worker makes on a target whose open ports are known.
pub enum PlannedRequest {
    TcpCustom { port: u16, payload: String },
    Https { port: u16, options: HttpsOptions },
    Http { port: u16, options: HttpsOptions },
}

/// A planned request, as values.
pub enum PlanView {
    TcpCustom(u16, Seq<char>),
    Https(u16, HttpsOptionsView),
    Http(u16, HttpsOptionsView),
}

impl View for PlannedRequest {
    type V = PlanView;

    open spec fn view(&self) -> PlanView {
        match self {
            PlannedRequest::TcpCustom { port, payload } => PlanView::TcpCustom(*port, payload@),
            PlannedRequest::Https { port, options } => PlanView::Https(*port, options@),
            PlannedRequest::Http { port, options } => PlanView::Http(*port, options@),
        }
    }
}

/// What the requests planned hold, as values.
pub open spec fn plan_views(p: Seq<PlannedRequest>) -> Seq<PlanView> {
    Seq::new(p.len(), |i: int| p[i]@)
}

/// A text that may be missing, missing text read as empty.
pub open spec fn text_or_empty(s: Option<String>) -> Seq<char> {
    match s {
        Some(t) => t@,
        None => Seq::empty(),
    }
}

/// The HTTP(S) request options of a definition; what is missing is empty.
pub open spec fn def_options(def: Definition) -> HttpsOptionsView {
    HttpsOptionsView {
        method: text_or_empty(def.options.method),
        path: text_or_empty(def.options.path),
        headers: match def.options.headers {
            Some(h) => headers_view(h@),
            None => Seq::empty(),
        },
        payload: text_or_empty(def.options.payload),
    }
}

/// The `tcp/custom` requests for the first `j` ports of a definition: one
/// per open port, carrying the definition's payload.
pub open spec fn def_tcp(def: Definition, open: Seq<u16>, j: nat) -> Seq<PlanView>
    decreases j,
{
    if j == 0 {
        Seq::empty()
    } else {
        let prev = def_tcp(def, open, (j - 1) as nat);
        let p = def.options.ports@[j - 1];
        if def.protocol@ == "tcp/custom"@ && open.contains(p) {
            prev.push(PlanView::TcpCustom(p, def.options.payload->0@))
        } else {
            prev
        }
    }
}

/// The HTTP(S) candidates for the first `j` ports of a definition: one per
/// open port, with the definition's options.
pub open spec fn def_http(def: Definition, open: Seq<u16>, j: nat) -> Seq<(u16, HttpsOptionsView)>
    decreases j,
{
    if j == 0 {
        Seq::empty()
    } else {
        let prev = def_http(def, open, (j - 1) as nat);
        let p = def.options.ports@[j - 1];
        if def.protocol@ == "http/s"@ && open.contains(p) {
            prev.push((p, def_options(def)))
        } else {
            prev
        }
    }
}

/// The `tcp/custom` requests of the first `i` definitions, in order.
pub open spec fn tcp_plan(defs: Seq<Definition>, open: Seq<u16>, i: nat) -> Seq<PlanView>
    decreases i,
{
    if i == 0 {
        Seq::empty()
    } else {
        tcp_plan(defs, open, (i - 1) as nat) + def_tcp(defs[i - 1], open, defs[i - 1].options.ports@.len())
    }
}

/// The HTTP(S) candidates of the first `i` definitions, in order.
pub open spec fn http_candidates(defs: Seq<Definition>, open: Seq<u16>, i: nat) -> Seq<(u16, HttpsOptionsView)>
    decreases i,
{
    if i == 0 {
        Seq::empty()
    } else {
        http_candidates(defs, open, (i - 1) as nat) + def_http(defs[i - 1], open, defs[i - 1].options.ports@.len())
    }
}

/// The HTTPS requests for the first `n` HTTP(S) targets; port 80 gets none.
pub open spec fn https_plan(t: Seq<(u16, HttpsOptionsView)>, n: nat) -> Seq<PlanView>
    decreases n,
{
    if n == 0 {
        Seq::empty()
    } else if t[n - 1].0 != 80 {
        https_plan(t, (n - 1) as nat).push(PlanView::Https(t[n - 1].0, t[n - 1].1))
    } else {
        https_plan(t, (n - 1) as nat)
    }
}

/// The HTTP requests for the first `n` HTTP(S) targets; port 443 gets none.
pub open spec fn http_plan(t: Seq<(u16, HttpsOptionsView)>, n: nat) -> Seq<PlanView>
    decreases n,
{
    if n == 0 {
        Seq::empty()
    } else if t[n - 1].0 != 443 {
        http_plan(t, (n - 1) as nat).push(PlanView::Http(t[n - 1].0, t[n - 1].1))
    } else {
        http_plan(t, (n - 1) as nat)
    }
}

/// Whether some target of `t` goes to port `p`.
pub open spec fn has_port(t: Seq<(u16, HttpsOptionsView)>, p: u16) -> bool {
    exists|k: int| 0 <= k < t.len() && (#[trigger] t[k]).0 == p
}

/// The targets of `t`, only the first of each port kept, in order.
pub open spec fn first_per_port(t: Seq<(u16, HttpsOptionsView)>) -> Seq<(u16, HttpsOptionsView)>
    decreases t.len(),
{
    if t.len() == 0 {
        Seq::empty()
    } else {
        let d = first_per_port(t.drop_last());
        if has_port(d, t.last().0) {
            d
        } else {
            d.push(t.last())
        }
    }
}

/// No two targets go to the same port.
pub open spec fn distinct_ports(t: Seq<(u16, HttpsOptionsView)>) -> bool {
    forall|i: int, j: int| 0 <= i < j < t.len() ==> t[i].0 != t[j].0
}

/// The HTTP(S) targets: each open port of an `http/s` definition once, in
/// the order the ports first occur, with the options of the first `http/s`
/// definition that lists it.
pub open spec fn http_targets(defs: Seq<Definition>, open: Seq<u16>) -> Seq<(u16, HttpsOptionsView)> {
    first_per_port(http_candidates(defs, open, defs.len()))
}

/// The requests made on a target: first the `tcp/custom` requests, then one
/// HTTPS request to every HTTP(S) target but port 80, then one HTTP request
/// to every one but port 443.
pub open spec fn spec_plan(defs: Seq<Definition>, open: Seq<u16>) -> Seq<PlanView> {
    let t = http_targets(defs, open);
    tcp_plan(defs, open, defs.len()) + https_plan(t, t.len()) + http_plan(t, t.len())
}

/// Every `tcp/custom` definition has a payload for each of its open ports.
pub open spec fn tcp_payloads_present(defs: Seq<Definition>, open: Seq<u16>) -> bool {
    forall|i: int, j: int|
        0 <= i < defs.len() && 0 <= j < defs[i].options.ports@.len() && defs[i].protocol@ == "tcp/custom"@
            && open.contains(#[trigger] defs[i].options.ports@[j]) ==> defs[i].options.payload is Some
}

/// Whether every `tcp/custom` definition has a payload for its open ports
/// (what `plan_requests` needs).
pub fn payloads_present(defs: &[Definition], open: &Vec<u16>) -> (r: bool)
    ensures
        r == tcp_payloads_present(defs@, open@),
{
    let mut i: usize = 0;
    while i < defs.len()
        invariant
            i <= defs@.len(),
            forall|a: int, j: int|
                0 <= a < i && 0 <= j < defs@[a].options.ports@.len() && defs@[a].protocol@ == "tcp/custom"@
                    && open@.contains(#[trigger] defs@[a].options.ports@[j]) ==> defs@[a].options.payload is Some,
        decreases defs@.len() - i,
    {
        let def = &defs[i];
        if str_eq(def.protocol.as_str(), "tcp/custom") && def.options.payload.is_none() {
            let mut j: usize = 0;
            while j < def.options.ports.len()
                invariant
                    i < defs@.len(),
                    *def == defs@[i as int],
                    def.protocol@ == "tcp/custom"@,
                    def.options.payload is None,
                    j <= def.options.ports@.len(),
                    forall|m: int| 0 <= m < j ==> !open@.contains(#[trigger] def.options.ports@[m]),
                decreases def.options.ports@.len() - j,
            {
                if contains_port(open, def.options.ports[j]) {
                    assert(open@.contains(defs@[i as int].options.ports@[j as int]));
                    assert(!tcp_payloads_present(defs@, open@));
                    return false;
                }
                j = j + 1;
            }
        }
        i = i + 1;
    }
    true
}

fn options_of(def: &Definition) -> (o: HttpsOptions)
    ensures
        o@ == def_options(*def),
{
    let method = match &def.options.method {
        Some(m) => m.clone(),
        None => String::new(),
    };
    let path = match &def.options.path {
        Some(p) => p.clone(),
        None => String::new(),
    };
    let headers = match &def.options.headers {
        Some(h) => {
            let o = HttpsOptions { method: String::new(), path: String::new(), headers: Vec::new(), payload: String::new() };
            let mut hs: Vec<(String, String)> = Vec::new();
            let mut i: usize = 0;
            while i < h.len()
                invariant
                    i <= h@.len(),
                    hs@.len() == i,
                    forall|k: int| 0 <= k < i ==> (#[trigger] hs@[k]).0@ == h@[k].0@ && hs@[k].1@ == h@[k].1@,
                decreases h@.len() - i,
            {
                hs.push((h[i].0.clone(), h[i].1.clone()));
                i = i + 1;
            }
            assert(headers_view(hs@) =~= headers_view(h@));
            hs
        },
        None => Vec::new(),
    };
    let payload = match &def.options.payload {
        Some(p) => p.clone(),
        None => String::new(),
    };
    let o = HttpsOptions { method, path, headers, payload };
    assert(o@.headers =~= def_options(*def).headers);
    o
}

fn port_taken(ts: &Vec<(u16, HttpsOptions)>, port: u16) -> (r: bool)
    ensures
        r == has_port(Seq::new(ts@.len(), |k: int| (ts@[k].0, ts@[k].1@)), port),
{
    let ghost view = Seq::new(ts@.len(), |k: int| (ts@[k].0, ts@[k].1@));
    let mut i: usize = 0;
    while i < ts.len()
        invariant
            i <= ts@.len(),
            view == Seq::new(ts@.len(), |k: int| (ts@[k].0, ts@[k].1@)),
            forall|k: int| 0 <= k < i ==> view[k].0 != port,
        decreases ts@.len() - i,
    {
        if ts[i].0 == port {
            assert(view[i as int].0 == port);
            return true;
        }
        i = i + 1;
    }
    false
}

/// The requests to make on a target given the ports found open, as
/// `spec_plan` says.
#[verifier::loop_isolation(false)]
pub fn plan_requests(defs: &[Definition], open: &Vec<u16>) -> (r: Vec<PlannedRequest>)
    requires
        tcp_payloads_present(defs@, open@),
    ensures
        plan_views(r@) == spec_plan(defs@, open@),
{
    let mut plan: Vec<PlannedRequest> = Vec::new();
    let mut targets: Vec<(u16, HttpsOptions)> = Vec::new();
    let mut i: usize = 0;
    while i < defs.len()
        invariant
            i <= defs@.len(),
            plan_views(plan@) == tcp_plan(defs@, open@, i as nat),
            Seq::new(targets@.len(), |k: int| (targets@[k].0, targets@[k].1@)) == first_per_port(http_candidates(defs@, open@, i as nat)),
        decreases defs@.len() - i,
    {
        let def = &defs[i];
        let is_tcp = str_eq(def.protocol.as_str(), "tcp/custom");
        let is_http = str_eq(def.protocol.as_str(), "http/s");
        let ports = &def.options.ports;
        let ghost plan0 = plan_views(plan@);
        let ghost cands0 = http_candidates(defs@, open@, i as nat);
        let mut j: usize = 0;
        while j < ports.len()
            invariant
                i < defs@.len(),
                *def == defs@[i as int],
                ports@ == def.options.ports@,
                j <= ports@.len(),
                plan_views(plan@) == plan0 + def_tcp(*def, open@, j as nat),
                Seq::new(targets@.len(), |k: int| (targets@[k].0, targets@[k].1@)) == first_per_port(cands0 + def_http(*def, open@, j as nat)),
            decreases ports@.len() - j,
        {
            let p = ports[j];
            if is_tcp && contains_port(open, p) {
                assert(def.options.payload is Some) by {
                    assert(open@.contains(defs@[i as int].options.ports@[j as int]));
                }
                let payload = match &def.options.payload {
                    Some(x) => x.clone(),
                    None => String::new(),
                };
                assert(payload@ == def.options.payload->0@);
                let ghost prev = plan@;
                plan.push(PlannedRequest::TcpCustom { port: p, payload });
                assert(plan@[plan@.len() - 1]@ == PlanView::TcpCustom(p, def.options.payload->0@));
                assert(plan_views(plan@) =~= plan_views(prev).push(PlanView::TcpCustom(p, def.options.payload->0@)));
                assert(plan_views(plan@) =~= plan0 + def_tcp(*def, open@, (j + 1) as nat));
            } else {
                assert(def_tcp(*def, open@, (j + 1) as nat) == def_tcp(*def, open@, j as nat));
            }
            if is_http && contains_port(open, p) {
                let o = options_of(def);
                proof {
                    let before = cands0 + def_http(*def, open@, j as nat);
                    assert(cands0 + def_http(*def, open@, (j + 1) as nat) =~= before.push((p, o@)));
                    assert(before.push((p, o@)).drop_last() =~= before);
                }
                if !port_taken(&targets, p) {
                    targets.push((p, o));
                    assert(Seq::new(targets@.len(), |k: int| (targets@[k].0, targets@[k].1@))
                        =~= first_per_port(cands0 + def_http(*def, open@, j as nat)).push((p, def_options(*def))));
                }
            } else {
                assert(cands0 + def_http(*def, open@, (j + 1) as nat) =~= cands0 + def_http(*def, open@, j as nat));
            }
            j = j + 1;
        }
        i = i + 1;
    }
    assert(defs@.len() == i);
    let ghost t = http_targets(defs@, open@);
    let ghost tcp = plan_views(plan@);
    let n = targets.len();
    let mut k: usize = 0;
    while k < n
        invariant
            n == targets@.len(),
            t == Seq::new(targets@.len(), |m: int| (targets@[m].0, targets@[m].1@)),
            k <= n,
            plan_views(plan@) == tcp + https_plan(t, k as nat),
        decreases n - k,
    {
        assert(t[k as int] == (targets@[k as int].0, targets@[k as int].1@));
        if targets[k].0 != 80 {
            let o = targets[k].1.duplicate();
            let ghost prev = plan@;
            plan.push(PlannedRequest::Https { port: targets[k].0, options: o });
            assert(plan_views(plan@) =~= plan_views(prev).push(PlanView::Https(t[k as int].0, t[k as int].1)));
        }
        assert(plan_views(plan@) =~= tcp + https_plan(t, (k + 1) as nat));
        k = k + 1;
    }
    let ghost mid = plan_views(plan@);
    let mut k: usize = 0;
    while k < n
        invariant
            n == targets@.len(),
            t == Seq::new(targets@.len(), |m: int| (targets@[m].0, targets@[m].1@)),
            k <= n,
            plan_views(plan@) == mid + http_plan(t, k as nat),
        decreases n - k,
    {
        assert(t[k as int] == (targets@[k as int].0, targets@[k as int].1@));
        if targets[k].0 != 443 {
            let o = targets[k].1.duplicate();
            let ghost prev = plan@;
            plan.push(PlannedRequest::Http { port: targets[k].0, options: o });
            assert(plan_views(plan@) =~= plan_views(prev).push(PlanView::Http(t[k as int].0, t[k as int].1)));
        }
        assert(plan_views(plan@) =~= mid + http_plan(t, (k + 1) as nat));
        k = k + 1;
    }
    plan
}

/// The port a planned request goes to.
pub open spec fn port_of(r: PlanView) -> u16 {
    match r {
        PlanView::TcpCustom(p, _) => p,
        PlanView::Https(p, _) => p,
        PlanView::Http(p, _) => p,
    }
}

proof fn lemma_def_tcp_open(def: Definition, open: Seq<u16>, j: nat)
    requires
        j <= def.options.ports@.len(),
    ensures
        forall|k: int| 0 <= k < def_tcp(def, open, j).len() ==> open.contains(#[trigger] port_of(def_tcp(def, open, j)[k]))
            && def_tcp(def, open, j)[k] is TcpCustom,
    decreases j,
{
    if j > 0 {
        lemma_def_tcp_open(def, open, (j - 1) as nat);
    }
}

proof fn lemma_tcp_plan_open(defs: Seq<Definition>, open: Seq<u16>, i: nat)
    requires
        i <= defs.len(),
    ensures
        forall|k: int| 0 <= k < tcp_plan(defs, open, i).len() ==> open.contains(#[trigger] port_of(tcp_plan(defs, open, i)[k]))
            && tcp_plan(defs, open, i)[k] is TcpCustom,
    decreases i,
{
    if i > 0 {
        lemma_tcp_plan_open(defs, open, (i - 1) as nat);
        lemma_def_tcp_open(defs[i - 1], open, defs[i - 1].options.ports@.len());
        let a = tcp_plan(defs, open, (i - 1) as nat);
        let b = def_tcp(defs[i - 1], open, defs[i - 1].options.ports@.len());
        assert forall|k: int| 0 <= k < (a + b).len() implies open.contains(#[trigger] port_of((a + b)[k])) && (a + b)[k] is TcpCustom by {
            if k >= a.len() {
                assert((a + b)[k] == b[k - a.len()]);
            }
        }
    }
}

proof fn lemma_def_http_open(def: Definition, open: Seq<u16>, j: nat)
    requires
        j <= def.options.ports@.len(),
    ensures
        forall|k: int| 0 <= k < def_http(def, open, j).len() ==> open.contains(#[trigger] def_http(def, open, j)[k].0),
    decreases j,
{
    if j > 0 {
        lemma_def_http_open(def, open, (j - 1) as nat);
        let prev = def_http(def, open, (j - 1) as nat);
        let cur = def_http(def, open, j);
        assert forall|k: int| 0 <= k < cur.len() implies open.contains(#[trigger] cur[k].0) by {
            if k < prev.len() {
                assert(cur[k] == prev[k]);
            }
        }
    }
}

proof fn lemma_http_candidates_open(defs: Seq<Definition>, open: Seq<u16>, i: nat)
    requires
        i <= defs.len(),
    ensures
        forall|k: int| 0 <= k < http_candidates(defs, open, i).len() ==> open.contains(#[trigger] http_candidates(defs, open, i)[k].0),
    decreases i,
{
    if i > 0 {
        lemma_http_candidates_open(defs, open, (i - 1) as nat);
        lemma_def_http_open(defs[i - 1], open, defs[i - 1].options.ports@.len());
        let a = http_candidates(defs, open, (i - 1) as nat);
        let b = def_http(defs[i - 1], open, defs[i - 1].options.ports@.len());
        assert forall|k: int| 0 <= k < (a + b).len() implies open.contains(#[trigger] (a + b)[k].0) by {
            if k >= a.len() {
                assert((a + b)[k] == b[k - a.len()]);
            }
        }
    }
}

/// The target of an HTTP(S) request.
pub open spec fn target_of(r: PlanView) -> (u16, HttpsOptionsView) {
    match r {
        PlanView::Https(p, o) => (p, o),
        PlanView::Http(p, o) => (p, o),
        PlanView::TcpCustom(p, _) => (p, HttpsOptionsView { method: Seq::empty(), path: Seq::empty(), headers: Seq::empty(), payload: Seq::empty() }),
    }
}

/// `x` is the first target of `t` at its port.
pub open spec fn first_of_port(t: Seq<(u16, HttpsOptionsView)>, x: (u16, HttpsOptionsView)) -> bool {
    exists|m: int| 0 <= m < t.len() && #[trigger] t[m] == x && forall|m2: int| 0 <= m2 < m ==> t[m2].0 != x.0
}

/// Whether the plan holds an HTTPS request to port `p`.
pub open spec fn plans_https(plan: Seq<PlanView>, p: u16) -> bool {
    exists|k: int| 0 <= k < plan.len() && (#[trigger] plan[k]) is Https && port_of(plan[k]) == p
}

/// Whether the plan holds an HTTP request to port `p`.
pub open spec fn plans_http(plan: Seq<PlanView>, p: u16) -> bool {
    exists|k: int| 0 <= k < plan.len() && (#[trigger] plan[k]) is Http && port_of(plan[k]) == p
}

proof fn lemma_first_per_port(t: Seq<(u16, HttpsOptionsView)>)
    ensures
        distinct_ports(first_per_port(t)),
        forall|k: int| 0 <= k < t.len() ==> has_port(first_per_port(t), #[trigger] t[k].0),
        forall|k: int| 0 <= k < first_per_port(t).len() ==> first_of_port(t, #[trigger] first_per_port(t)[k]),
    decreases t.len(),
{
    if t.len() > 0 {
        let u = t.drop_last();
        let y = t.last();
        let d = first_per_port(u);
        let f = first_per_port(t);
        lemma_first_per_port(u);
        assert forall|k: int| 0 <= k < t.len() implies has_port(f, #[trigger] t[k].0) by {
            if k < t.len() - 1 {
                assert(u[k] == t[k]);
                assert(has_port(d, u[k].0));
                let w = choose|w: int| 0 <= w < d.len() && (#[trigger] d[w]).0 == u[k].0;
                assert(f[w] == d[w]);
            } else if has_port(d, y.0) {
                assert(f == d);
            } else {
                assert(f[d.len() as int] == y);
            }
        }
        if !has_port(d, y.0) {
            assert forall|i: int, j: int| 0 <= i < j < f.len() implies f[i].0 != f[j].0 by {
                assert(f[i] == d[i]);
                if j == d.len() {
                    assert(f[j] == y);
                } else {
                    assert(f[j] == d[j]);
                }
            }
        }
        assert forall|k: int| 0 <= k < f.len() implies first_of_port(t, #[trigger] f[k]) by {
            if k < d.len() {
                assert(f[k] == d[k]);
                assert(first_of_port(u, d[k]));
                let m = choose|m: int| 0 <= m < u.len() && #[trigger] u[m] == d[k]
                    && forall|m2: int| 0 <= m2 < m ==> u[m2].0 != d[k].0;
                assert(t[m] == u[m]);
                assert forall|m2: int| 0 <= m2 < m implies t[m2].0 != f[k].0 by {
                    assert(t[m2] == u[m2]);
                }
            } else {
                assert(f[k] == y);
                let m = t.len() - 1;
                assert forall|m2: int| 0 <= m2 < m implies t[m2].0 != y.0 by {
                    assert(t[m2] == u[m2]);
                    assert(has_port(d, u[m2].0));
                }
                assert(t[m] == y);
            }
        }
    }
}

proof fn lemma_https_plan(t: Seq<(u16, HttpsOptionsView)>, n: nat)
    requires
        n <= t.len(),
        distinct_ports(t),
    ensures
        forall|k: int| 0 <= k < https_plan(t, n).len() ==> (#[trigger] https_plan(t, n)[k]) is Https
            && port_of(https_plan(t, n)[k]) != 80 && t.take(n as int).contains(target_of(https_plan(t, n)[k])),
        forall|a: int, b: int| 0 <= a < b < https_plan(t, n).len()
            ==> port_of(#[trigger] https_plan(t, n)[a]) != port_of(#[trigger] https_plan(t, n)[b]),
        forall|m: int| 0 <= m < n && (#[trigger] t[m]).0 != 80 ==> https_plan(t, n).contains(PlanView::Https(t[m].0, t[m].1)),
    decreases n,
{
    if n > 0 {
        lemma_https_plan(t, (n - 1) as nat);
        let prev = https_plan(t, (n - 1) as nat);
        let cur = https_plan(t, n);
        assert forall|k: int| 0 <= k < prev.len() implies t.take(n as int).contains(target_of(#[trigger] prev[k])) by {
            let m = choose|m: int| 0 <= m < n - 1 && #[trigger] t.take(n - 1)[m] == target_of(prev[k]);
            assert(t.take(n as int)[m] == target_of(prev[k]));
        }
        assert forall|m: int| 0 <= m < n - 1 && (#[trigger] t[m]).0 != 80 implies cur.contains(PlanView::Https(t[m].0, t[m].1)) by {
            assert(prev.contains(PlanView::Https(t[m].0, t[m].1)));
            let i = choose|i: int| 0 <= i < prev.len() && prev[i] == PlanView::Https(t[m].0, t[m].1);
            assert(cur[i] == prev[i]);
        }
        if t[n - 1].0 != 80 {
            assert(t.take(n as int)[n - 1] == t[n - 1]);
            assert(cur[prev.len() as int] == PlanView::Https(t[n - 1].0, t[n - 1].1));
            assert forall|a: int, b: int| 0 <= a < b < cur.len() implies port_of(#[trigger] cur[a]) != port_of(#[trigger] cur[b]) by {
                assert(cur[a] == prev[a]);
                if b == cur.len() - 1 {
                    let m = choose|m: int| 0 <= m < n - 1 && #[trigger] t.take(n - 1)[m] == target_of(prev[a]);
                    assert(t[m] == target_of(prev[a]));
                } else {
                    assert(cur[b] == prev[b]);
                }
            }
        }
    }
}

proof fn lemma_http_plan(t: Seq<(u16, HttpsOptionsView)>, n: nat)
    requires
        n <= t.len(),
        distinct_ports(t),
    ensures
        forall|k: int| 0 <= k < http_plan(t, n).len() ==> (#[trigger] http_plan(t, n)[k]) is Http
            && port_of(http_plan(t, n)[k]) != 443 && t.take(n as int).contains(target_of(http_plan(t, n)[k])),
        forall|a: int, b: int| 0 <= a < b < http_plan(t, n).len()
            ==> port_of(#[trigger] http_plan(t, n)[a]) != port_of(#[trigger] http_plan(t, n)[b]),
        forall|m: int| 0 <= m < n && (#[trigger] t[m]).0 != 443 ==> http_plan(t, n).contains(PlanView::Http(t[m].0, t[m].1)),
    decreases n,
{
    if n > 0 {
        lemma_http_plan(t, (n - 1) as nat);
        let prev = http_plan(t, (n - 1) as nat);
        let cur = http_plan(t, n);
        assert forall|k: int| 0 <= k < prev.len() implies t.take(n as int).contains(target_of(#[trigger] prev[k])) by {
            let m = choose|m: int| 0 <= m < n - 1 && #[trigger] t.take(n - 1)[m] == target_of(prev[k]);
            assert(t.take(n as int)[m] == target_of(prev[k]));
        }
        assert forall|m: int| 0 <= m < n - 1 && (#[trigger] t[m]).0 != 443 implies cur.contains(PlanView::Http(t[m].0, t[m].1)) by {
            assert(prev.contains(PlanView::Http(t[m].0, t[m].1)));
            let i = choose|i: int| 0 <= i < prev.len() && prev[i] == PlanView::Http(t[m].0, t[m].1);
            assert(cur[i] == prev[i]);
        }
        if t[n - 1].0 != 443 {
            assert(t.take(n as int)[n - 1] == t[n - 1]);
            assert(cur[prev.len() as int] == PlanView::Http(t[n - 1].0, t[n - 1].1));
            assert forall|a: int, b: int| 0 <= a < b < cur.len() implies port_of(#[trigger] cur[a]) != port_of(#[trigger] cur[b]) by {
                assert(cur[a] == prev[a]);
                if b == cur.len() - 1 {
                    let m = choose|m: int| 0 <= m < n - 1 && #[trigger] t.take(n - 1)[m] == target_of(prev[a]);
                    assert(t[m] == target_of(prev[a]));
                } else {
                    assert(cur[b] == prev[b]);
                }
            }
        }
    }
}

proof fn lemma_def_http_has(def: Definition, open: Seq<u16>, j: nat)
    requires
        j <= def.options.ports@.len(),
    ensures
        forall|q: int| 0 <= q < j && def.protocol@ == "http/s"@ && open.contains(#[trigger] def.options.ports@[q])
            ==> has_port(def_http(def, open, j), def.options.ports@[q]),
    decreases j,
{
    if j > 0 {
        lemma_def_http_has(def, open, (j - 1) as nat);
        let prev = def_http(def, open, (j - 1) as nat);
        let cur = def_http(def, open, j);
        assert forall|q: int| 0 <= q < j && def.protocol@ == "http/s"@ && open.contains(#[trigger] def.options.ports@[q])
            implies has_port(cur, def.options.ports@[q]) by {
            if q < j - 1 {
                let w = choose|w: int| 0 <= w < prev.len() && (#[trigger] prev[w]).0 == def.options.ports@[q];
                assert(cur[w] == prev[w]);
            } else {
                assert(cur[prev.len() as int].0 == def.options.ports@[q]);
            }
        }
    }
}

proof fn lemma_http_candidates_has(defs: Seq<Definition>, open: Seq<u16>, i: nat)
    requires
        i <= defs.len(),
    ensures
        forall|a: int, q: int| 0 <= a < i && 0 <= q < defs[a].options.ports@.len() && defs[a].protocol@ == "http/s"@
            && open.contains(#[trigger] defs[a].options.ports@[q])
            ==> has_port(http_candidates(defs, open, i), defs[a].options.ports@[q]),
    decreases i,
{
    if i > 0 {
        lemma_http_candidates_has(defs, open, (i - 1) as nat);
        let d = defs[i - 1];
        lemma_def_http_has(d, open, d.options.ports@.len());
        let x = http_candidates(defs, open, (i - 1) as nat);
        let y = def_http(d, open, d.options.ports@.len());
        assert(http_candidates(defs, open, i) == x + y);
        assert forall|a: int, q: int| 0 <= a < i && 0 <= q < defs[a].options.ports@.len() && defs[a].protocol@ == "http/s"@
            && open.contains(#[trigger] defs[a].options.ports@[q])
            implies has_port(x + y, defs[a].options.ports@[q]) by {
            let p = defs[a].options.ports@[q];
            if a < i - 1 {
                let w = choose|w: int| 0 <= w < x.len() && (#[trigger] x[w]).0 == p;
                assert((x + y)[w] == x[w]);
            } else {
                assert(open.contains(d.options.ports@[q]));
                let w = choose|w: int| 0 <= w < y.len() && (#[trigger] y[w]).0 == p;
                assert((x + y)[x.len() + w] == y[w]);
            }
        }
    }
}

/// What the worker requests on a target: every request goes to an open
/// port; the `tcp/custom` requests come first, then the HTTPS requests,
/// then the HTTP requests; HTTPS never goes to port 80 nor HTTP to port
/// 443; at most one HTTPS and one HTTP request goes to a port; every open
/// port of an `http/s` definition gets its HTTPS request (unless it is 80)
/// and its HTTP request (unless it is 443); and an HTTP(S) request carries
/// the options of the first `http/s` definition that lists its port.
pub proof fn lemma_plan_sound(defs: Seq<Definition>, open: Seq<u16>)
    ensures
        forall|k: int| 0 <= k < spec_plan(defs, open).len() ==> open.contains(port_of(#[trigger] spec_plan(defs, open)[k])),
        forall|k: int| 0 <= k < spec_plan(defs, open).len() && (#[trigger] spec_plan(defs, open)[k]) is Https
            ==> port_of(spec_plan(defs, open)[k]) != 80,
        forall|k: int| 0 <= k < spec_plan(defs, open).len() && (#[trigger] spec_plan(defs, open)[k]) is Http
            ==> port_of(spec_plan(defs, open)[k]) != 443,
        forall|a: int, b: int| 0 <= a < b < spec_plan(defs, open).len() && (#[trigger] spec_plan(defs, open)[b]) is TcpCustom
            ==> (#[trigger] spec_plan(defs, open)[a]) is TcpCustom,
        forall|a: int, b: int| 0 <= a < b < spec_plan(defs, open).len() && (#[trigger] spec_plan(defs, open)[b]) is Https
            ==> !((#[trigger] spec_plan(defs, open)[a]) is Http),
        forall|a: int, b: int| 0 <= a < b < spec_plan(defs, open).len()
            && (#[trigger] spec_plan(defs, open)[a]) is Https && (#[trigger] spec_plan(defs, open)[b]) is Https
            ==> port_of(spec_plan(defs, open)[a]) != port_of(spec_plan(defs, open)[b]),
        forall|a: int, b: int| 0 <= a < b < spec_plan(defs, open).len()
            && (#[trigger] spec_plan(defs, open)[a]) is Http && (#[trigger] spec_plan(defs, open)[b]) is Http
            ==> port_of(spec_plan(defs, open)[a]) != port_of(spec_plan(defs, open)[b]),
        forall|i: int, j: int| 0 <= i < defs.len() && 0 <= j < defs[i].options.ports@.len() && defs[i].protocol@ == "http/s"@
            && open.contains(#[trigger] defs[i].options.ports@[j]) ==> {
                &&& defs[i].options.ports@[j] != 80 ==> plans_https(spec_plan(defs, open), defs[i].options.ports@[j])
                &&& defs[i].options.ports@[j] != 443 ==> plans_http(spec_plan(defs, open), defs[i].options.ports@[j])
            },
        forall|k: int| 0 <= k < spec_plan(defs, open).len() && !((#[trigger] spec_plan(defs, open)[k]) is TcpCustom)
            ==> first_of_port(http_candidates(defs, open, defs.len()), target_of(spec_plan(defs, open)[k])),
{
    let t = http_targets(defs, open);
    let c = http_candidates(defs, open, defs.len());
    lemma_first_per_port(c);
    lemma_http_candidates_open(defs, open, defs.len());
    lemma_http_candidates_has(defs, open, defs.len());
    lemma_tcp_plan_open(defs, open, defs.len());
    lemma_https_plan(t, t.len());
    lemma_http_plan(t, t.len());
    let a0 = tcp_plan(defs, open, defs.len());
    let b0 = https_plan(t, t.len());
    let c0 = http_plan(t, t.len());
    let plan = spec_plan(defs, open);
    assert(plan == a0 + b0 + c0);
    assert(t.take(t.len() as int) =~= t);
    assert forall|x: (u16, HttpsOptionsView)| t.contains(x) implies open.contains(x.0) && first_of_port(c, x) by {
        let k = choose|k: int| 0 <= k < t.len() && t[k] == x;
        assert(first_of_port(c, t[k]));
        let m = choose|m: int| 0 <= m < c.len() && #[trigger] c[m] == x && forall|m2: int| 0 <= m2 < m ==> c[m2].0 != x.0;
        assert(open.contains(c[m].0));
    }
    assert forall|k: int| 0 <= k < plan.len() implies open.contains(port_of(#[trigger] plan[k]))
        && (plan[k] is TcpCustom <==> k < a0.len())
        && (plan[k] is Https <==> a0.len() <= k < a0.len() + b0.len())
        && (!(plan[k] is TcpCustom) ==> first_of_port(c, target_of(plan[k]))) by {
        if k < a0.len() {
            assert(plan[k] == a0[k]);
        } else if k < a0.len() + b0.len() {
            assert(plan[k] == b0[k - a0.len()]);
            assert(t.contains(target_of(b0[k - a0.len()])));
        } else {
            assert(plan[k] == c0[k - a0.len() - b0.len()]);
            assert(t.contains(target_of(c0[k - a0.len() - b0.len()])));
        }
    }
    assert forall|k: int| 0 <= k < plan.len() && (#[trigger] plan[k]) is Https implies port_of(plan[k]) != 80 by {
        assert(plan[k] == b0[k - a0.len()]);
    }
    assert forall|k: int| 0 <= k < plan.len() && (#[trigger] plan[k]) is Http implies port_of(plan[k]) != 443 by {
        assert(plan[k] == c0[k - a0.len() - b0.len()]);
    }
    assert forall|a: int, b: int| 0 <= a < b < plan.len() && (#[trigger] plan[a]) is Https && (#[trigger] plan[b]) is Https
        implies port_of(plan[a]) != port_of(plan[b]) by {
        assert(plan[a] == b0[a - a0.len()]);
        assert(plan[b] == b0[b - a0.len()]);
    }
    assert forall|a: int, b: int| 0 <= a < b < plan.len() && (#[trigger] plan[a]) is Http && (#[trigger] plan[b]) is Http
        implies port_of(plan[a]) != port_of(plan[b]) by {
        assert(plan[a] == c0[a - a0.len() - b0.len()]);
        assert(plan[b] == c0[b - a0.len() - b0.len()]);
    }
    assert forall|i: int, j: int| 0 <= i < defs.len() && 0 <= j < defs[i].options.ports@.len() && defs[i].protocol@ == "http/s"@
        && open.contains(#[trigger] defs[i].options.ports@[j]) implies {
            &&& defs[i].options.ports@[j] != 80 ==> plans_https(plan, defs[i].options.ports@[j])
            &&& defs[i].options.ports@[j] != 443 ==> plans_http(plan, defs[i].options.ports@[j])
        } by {
        let p = defs[i].options.ports@[j];
        assert(has_port(c, p));
        let w = choose|w: int| 0 <= w < c.len() && (#[trigger] c[w]).0 == p;
        assert(has_port(t, c[w].0));
        let m = choose|m: int| 0 <= m < t.len() && (#[trigger] t[m]).0 == p;
        if p != 80 {
            assert(b0.contains(PlanView::Https(t[m].0, t[m].1)));
            let x = choose|x: int| 0 <= x < b0.len() && b0[x] == PlanView::Https(t[m].0, t[m].1);
            assert(plan[a0.len() + x] == b0[x]);
        }
        if p != 443 {
            assert(c0.contains(PlanView::Http(t[m].0, t[m].1)));
            let x = choose|x: int| 0 <= x < c0.len() && c0[x] == PlanView::Http(t[m].0, t[m].1);
            assert(plan[a0.len() + b0.len() + x] == c0[x]);
        }
    }
}

proof fn lemma_def_tcp_has(def: Definition, open: Seq<u16>, j: nat)
    requires
        j <= def.options.ports@.len(),
    ensures
        forall|q: int| 0 <= q < j && def.protocol@ == "tcp/custom"@ && open.contains(#[trigger] def.options.ports@[q])
            ==> def_tcp(def, open, j).contains(PlanView::TcpCustom(def.options.ports@[q], def.options.payload->0@)),
    decreases j,
{
    if j > 0 {
        lemma_def_tcp_has(def, open, (j - 1) as nat);
        let prev = def_tcp(def, open, (j - 1) as nat);
        let cur = def_tcp(def, open, j);
        assert forall|q: int| 0 <= q < j && def.protocol@ == "tcp/custom"@ && open.contains(#[trigger] def.options.ports@[q])
            implies cur.contains(PlanView::TcpCustom(def.options.ports@[q], def.options.payload->0@)) by {
            let x = PlanView::TcpCustom(def.options.ports@[q], def.options.payload->0@);
            if q < j - 1 {
                let w = choose|w: int| 0 <= w < prev.len() && prev[w] == x;
                assert(cur[w] == prev[w]);
            } else {
                assert(cur[prev.len() as int] == x);
            }
        }
    }
}

proof fn lemma_tcp_plan_has(defs: Seq<Definition>, open: Seq<u16>, i: nat)
    requires
        i <= defs.len(),
    ensures
        forall|a: int, q: int| 0 <= a < i && 0 <= q < defs[a].options.ports@.len() && defs[a].protocol@ == "tcp/custom"@
            && open.contains(#[trigger] defs[a].options.ports@[q])
            ==> tcp_plan(defs, open, i).contains(PlanView::TcpCustom(defs[a].options.ports@[q], defs[a].options.payload->0@)),
    decreases i,
{
    if i > 0 {
        lemma_tcp_plan_has(defs, open, (i - 1) as nat);
        let d = defs[i - 1];
        lemma_def_tcp_has(d, open, d.options.ports@.len());
        let x = tcp_plan(defs, open, (i - 1) as nat);
        let y = def_tcp(d, open, d.options.ports@.len());
        assert(tcp_plan(defs, open, i) == x + y);
        assert forall|a: int, q: int| 0 <= a < i && 0 <= q < defs[a].options.ports@.len() && defs[a].protocol@ == "tcp/custom"@
            && open.contains(#[trigger] defs[a].options.ports@[q])
            implies (x + y).contains(PlanView::TcpCustom(defs[a].options.ports@[q], defs[a].options.payload->0@)) by {
            let r = PlanView::TcpCustom(defs[a].options.ports@[q], defs[a].options.payload->0@);
            if a < i - 1 {
                let w = choose|w: int| 0 <= w < x.len() && x[w] == r;
                assert((x + y)[w] == x[w]);
            } else {
                assert(open.contains(d.options.ports@[q]));
                let w = choose|w: int| 0 <= w < y.len() && y[w] == r;
                assert((x + y)[x.len() + w] == y[w]);
            }
        }
    }
}

/// Every open port of a `tcp/custom` definition gets a `tcp/custom` request
/// that carries the definition's payload: none of them is skipped, whatever
/// the other definitions and ports are.
pub proof fn lemma_tcp_requests_complete(defs: Seq<Definition>, open: Seq<u16>)
    ensures
        forall|i: int, j: int| 0 <= i < defs.len() && 0 <= j < defs[i].options.ports@.len()
            && defs[i].protocol@ == "tcp/custom"@ && defs[i].options.payload is Some
            && open.contains(#[trigger] defs[i].options.ports@[j])
            ==> spec_plan(defs, open).contains(PlanView::TcpCustom(defs[i].options.ports@[j], defs[i].options.payload->0@)),
{
    lemma_tcp_plan_has(defs, open, defs.len());
    let t = http_targets(defs, open);
    let a0 = tcp_plan(defs, open, defs.len());
    let rest = https_plan(t, t.len()) + http_plan(t, t.len());
    assert(spec_plan(defs, open) =~= a0 + rest);
    assert forall|i: int, j: int| 0 <= i < defs.len() && 0 <= j < defs[i].options.ports@.len()
        && defs[i].protocol@ == "tcp/custom"@ && defs[i].options.payload is Some
        && open.contains(#[trigger] defs[i].options.ports@[j])
        implies spec_plan(defs, open).contains(PlanView::TcpCustom(defs[i].options.ports@[j], defs[i].options.payload->0@)) by {
        let r = PlanView::TcpCustom(defs[i].options.ports@[j], defs[i].options.payload->0@);
        let w = choose|w: int| 0 <= w < a0.len() && a0[w] == r;
        assert((a0 + rest)[w] == a0[w]);
    }
}

/// The protocol name of a planned request.
pub open spec fn plan_protocol(r: PlanView) -> Seq<char> {
    match r {
        PlanView::TcpCustom(_, _) => "tcp/custom"@,
        PlanView::Https(_, _) => "https"@,
        PlanView::Http(_, _) => "http"@,
    }
}

/// The target a planned request goes to: the scanned target with the
/// request's port and protocol name; a `tcp/custom` request goes to the
/// address alone, without the domain. Every other field is kept.
pub fn request_target(target: &ReqTarget, req: &PlannedRequest) -> (t: ReqTarget)
    ensures
        t.port == port_of(req@),
        t.protocol@ == plan_protocol(req@),
        t.domain@ == (if req@ is TcpCustom { Seq::<char>::empty() } else { target.domain@ }),
        t.ip == target.ip,
        t.response == target.response,
        t.time == target.time,
{
    let mut t = target.clone();
    match req {
        PlannedRequest::TcpCustom { port, payload: _ } => {
            t.domain = String::new();
            t.protocol = owned("tcp/custom");
            t.port = *port;
        },
        PlannedRequest::Https { port, options: _ } => {
            t.protocol = owned("https");
            t.port = *port;
        },
        PlannedRequest::Http { port, options: _ } => {
            t.protocol = owned("http");
            t.port = *port;
        },
    }
    t
}

/// Whether the worker takes another target after `count` of them: always
/// when there is no limit (`max_targets` 0), else while under the limit.
pub fn wants_more_targets(max_targets: u64, count: u64) -> (b: bool)
    ensures
        b == (max_targets == 0 || count < max_targets),
{
    max_targets == 0 || count < max_targets
}

/// The target a dataset line names: its name as domain and its value as
/// address, for records of type `a` only.
pub fn target_from_record(record: DatasetRecord) -> (r: Option<ReqTarget>)
    ensures
        r is Some == (record.record_type@ == "a"@),
        r matches Some(t) ==> t.domain@ == record.name@ && t.ip@ == record.value@ && t.port == 0
            && t.protocol@.len() == 0 && t.response@.len() == 0,
{
    if !str_eq(record.record_type.as_str(), "a") {
        return None;
    }
    Some(ReqTarget::new(record.name, record.value))
}

} // verus!
