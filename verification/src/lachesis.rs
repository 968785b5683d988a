//! How a run ends, and what the run does with each message of the worker.
//!
//! The run loop reads the worker's messages. For each one it calls
//! `handle_message`, which counts the message in the statistics and answers
//! with the actions to perform in order: lines to print, things to store,
//! or the end of the loop.

use vstd::prelude::*;
use crate::conf::Definition;
use crate::detector::{DetectorResponse, Finding, all_defined, findings_of, spec_detect, try_detect};
use crate::stats::{
    Stats, fail_line, fail_text, int_err_line, int_err_text, match_line, match_text, open_port_line,
    open_port_text, response_line, response_text, timeout_line, timeout_text,
};
use crate::worker::{PortStatus, ReqTarget, WorkerMessage};

verus! {

/// How a run ends.
#[derive(Clone, Copy, Debug, PartialEq, Eq, Structural)]
pub enum ExitCode {
    Success,
    Failure,
}

impl ExitCode {
    /// The process exit status: 0 for `Success`, 1 for `Failure`.
    pub fn report(self) -> (c: i32)
        ensures
            c == (if self == ExitCode::Success { 0i32 } else { 1i32 }),
    {
        match self {
            ExitCode::Success => 0,
            ExitCode::Failure => 1,
        }
    }
}

/// Whether some finding carries no error.
pub open spec fn matched(fs: Seq<Finding>) -> bool {
    exists|i: int| 0 <= i < fs.len() && (#[trigger] fs[i]).error is None
}

/// A response matched when one of its findings carries no error.
pub fn response_matched(results: &Vec<DetectorResponse>) -> (m: bool)
    ensures
        m == matched(findings_of(results@)),
{
    let ghost fs = findings_of(results@);
    let mut i: usize = 0;
    while i < results.len()
        invariant
            i <= results@.len(),
            fs == findings_of(results@),
            forall|k: int| 0 <= k < i ==> (#[trigger] fs[k]).error is Some,
        decreases results@.len() - i,
    {
        if results[i].error.is_none() {
            assert(fs[i as int].error is None);
            return true;
        }
        i = i + 1;
    }
    false
}

/// Something the run loop does for a message.
pub enum Action {
    /// Print a line above the progress display.
    Log(String),
    /// Store an address with one of its open ports.
    SaveOpenPort(String, u16),
    /// Store a domain that answered.
    SaveDomain(String),
    /// Store a finding.
    SaveService(DetectorResponse),
    /// Stop reading messages.
    Stop,
}

/// What an action says, as text.
pub enum ActionView {
    Log(Seq<char>),
    SaveOpenPort(Seq<char>, u16),
    SaveDomain(Seq<char>),
    SaveService(ReqTarget, Finding),
    Stop,
}

/// What an action says.
pub open spec fn action_view(a: Action) -> ActionView {
    match a {
        Action::Log(l) => ActionView::Log(l@),
        Action::SaveOpenPort(ip, port) => ActionView::SaveOpenPort(ip@, port),
        Action::SaveDomain(d) => ActionView::SaveDomain(d@),
        Action::SaveService(dr) => ActionView::SaveService(dr.target, dr.finding()),
        Action::Stop => ActionView::Stop,
    }
}

/// What a list of actions says.
pub open spec fn action_views(s: Seq<Action>) -> Seq<ActionView> {
    Seq::new(s.len(), |i: int| action_view(s[i]))
}

/// The actions for one finding on a target: an error is printed; a service
/// found is printed, then stored.
pub open spec fn finding_actions(target: ReqTarget, f: Finding) -> Seq<ActionView> {
    match f.error {
        Some(e) => seq![ActionView::Log(int_err_text(e))],
        None => seq![
            ActionView::Log(match_text(target, f.service, f.version, f.description)),
            ActionView::SaveService(target, f),
        ],
    }
}

/// The actions for the first `n` findings on a target, in order.
pub open spec fn findings_actions(target: ReqTarget, fs: Seq<Finding>, n: nat) -> Seq<ActionView>
    decreases n,
{
    if n == 0 {
        Seq::empty()
    } else {
        findings_actions(target, fs, (n - 1) as nat) + finding_actions(target, fs[n - 1])
    }
}

/// The actions for a response: the response is printed, its domain stored
/// when it has one, then the actions of each finding of detection.
pub open spec fn response_actions(target: ReqTarget, defs: Seq<Definition>) -> Seq<ActionView> {
    let fs = spec_detect(target, defs);
    seq![ActionView::Log(response_text(target))]
        + (if target.domain@.len() > 0 { seq![ActionView::SaveDomain(target.domain@)] } else { Seq::empty() })
        + findings_actions(target, fs, fs.len())
}

/// A message can be handled: detection can run on a response, and no
/// counter overflows. Where this fails, counting the message or detecting
/// on the response would panic.
pub open spec fn message_fits(stats: Stats, defs: Seq<Definition>, msg: WorkerMessage, elapsed_ms: u128) -> bool {
    match msg {
        WorkerMessage::PortTarget(pt) => stats.port_fits(pt.status, elapsed_ms),
        WorkerMessage::Response(t) => {
            &&& all_defined(t.response@, defs)
            &&& stats.request_time_fits(elapsed_ms, t.protocol@)
            &&& stats.after_request_time(elapsed_ms, t.protocol@).success_fits(t.protocol@, matched(spec_detect(t, defs)))
        },
        WorkerMessage::Fail(t, _, _) => stats.failure_fits(t.protocol@),
        WorkerMessage::Timeout(t) => stats.timeout_fits(t.protocol@),
        WorkerMessage::NextTarget => stats.targets < u64::MAX,
        WorkerMessage::Shutdown => true,
    }
}

/// The counters after a message.
pub open spec fn next_stats(stats: Stats, defs: Seq<Definition>, msg: WorkerMessage, elapsed_ms: u128) -> Stats {
    match msg {
        WorkerMessage::PortTarget(pt) => stats.after_port(pt.status, elapsed_ms),
        WorkerMessage::Response(t) => stats.after_request_time(elapsed_ms, t.protocol@)
            .after_success(t.protocol@, matched(spec_detect(t, defs))),
        WorkerMessage::Fail(t, _, _) => stats.after_failure(t.protocol@),
        WorkerMessage::Timeout(t) => stats.after_timeout(t.protocol@),
        WorkerMessage::NextTarget => stats.after_target(),
        WorkerMessage::Shutdown => stats,
    }
}

/// The actions for a message: an open port is printed and stored; a
/// response as `response_actions` says; a failure or a timeout is printed
/// in debug mode only; a shutdown stops the loop.
pub open spec fn message_actions(defs: Seq<Definition>, debug: bool, msg: WorkerMessage) -> Seq<ActionView> {
    match msg {
        WorkerMessage::PortTarget(pt) => if pt.status == PortStatus::Open {
            seq![ActionView::Log(open_port_text(pt.ip@, pt.port)), ActionView::SaveOpenPort(pt.ip@, pt.port)]
        } else {
            Seq::empty()
        },
        WorkerMessage::Response(t) => response_actions(t, defs),
        WorkerMessage::Fail(t, ctx, e) => if debug { seq![ActionView::Log(fail_text(t, ctx@, e))] } else { Seq::empty() },
        WorkerMessage::Timeout(t) => if debug { seq![ActionView::Log(timeout_text(t))] } else { Seq::empty() },
        WorkerMessage::NextTarget => Seq::empty(),
        WorkerMessage::Shutdown => seq![ActionView::Stop],
    }
}

/// The actions of the findings of a response, appended to `actions`.
fn push_finding_actions(actions: &mut Vec<Action>, target: &ReqTarget, results: &Vec<DetectorResponse>)
    requires
        forall|i: int| 0 <= i < results@.len() ==> (#[trigger] results@[i]).target == *target,
    ensures
        action_views(final(actions)@) == action_views(old(actions)@)
            + findings_actions(*target, findings_of(results@), results@.len()),
{
    let ghost fs = findings_of(results@);
    let ghost start = action_views(actions@);
    let mut i: usize = 0;
    while i < results.len()
        invariant
            i <= results@.len(),
            fs == findings_of(results@),
            forall|k: int| 0 <= k < results@.len() ==> (#[trigger] results@[k]).target == *target,
            action_views(actions@) == start + findings_actions(*target, fs, i as nat),
        decreases results@.len() - i,
    {
        let ghost before = actions@;
        let r = &results[i];
        assert(fs[i as int] == r.finding());
        match &r.error {
            Some(e) => {
                actions.push(Action::Log(int_err_line(e.as_str())));
            },
            None => {
                actions.push(Action::Log(match_line(r)));
                actions.push(Action::SaveService(r.clone()));
            },
        }
        assert(action_views(actions@) =~= action_views(before) + finding_actions(*target, fs[i as int]));
        assert(findings_actions(*target, fs, (i + 1) as nat) == findings_actions(*target, fs, i as nat)
            + finding_actions(*target, fs[i as int]));
        i = i + 1;
    }
}

/// Counts a message of the worker in `stats` and returns the actions to
/// perform for it, in order (`next_stats`, `message_actions`). The message
/// took `elapsed_ms` (a probed port, or a response). Returns `None`, with
/// `stats` unchanged, where the message cannot be handled: detection cannot
/// run on a response, or a counter would overflow (`message_fits`).
pub fn handle_message(
    stats: &mut Stats,
    definitions: &[Definition],
    debug: bool,
    msg: WorkerMessage,
    elapsed_ms: u128,
) -> (r: Option<Vec<Action>>)
    ensures
        r is Some == message_fits(*old(stats), definitions@, msg, elapsed_ms),
        r is None ==> *final(stats) == *old(stats),
        r matches Some(actions) ==> {
            &&& *final(stats) == next_stats(*old(stats), definitions@, msg, elapsed_ms)
            &&& action_views(actions@) == message_actions(definitions@, debug, msg)
        },
{
    let mut actions: Vec<Action> = Vec::new();
    match msg {
        WorkerMessage::PortTarget(pt) => {
            if !stats.fits_port(pt.status, elapsed_ms) {
                return None;
            }
            stats.update_port(pt.status, elapsed_ms);
            if pt.status == PortStatus::Open {
                actions.push(Action::Log(open_port_line(pt.ip.as_str(), pt.port)));
                actions.push(Action::SaveOpenPort(pt.ip, pt.port));
            }
        },
        WorkerMessage::Response(target) => {
            let results = match try_detect(&target, definitions) {
                Some(results) => results,
                None => { return None; },
            };
            let ghost fs = spec_detect(target, definitions@);
            assert(findings_of(results@) =~= fs);
            let matching = response_matched(&results);
            if !stats.fits_request_time(elapsed_ms, target.protocol.as_str()) {
                return None;
            }
            let mut next = *stats;
            next.update_req_avg_time(elapsed_ms, target.protocol.as_str());
            if !next.fits_success(target.protocol.as_str(), matching) {
                return None;
            }
            next.increment_successful(target.protocol.as_str(), matching);
            *stats = next;
            actions.push(Action::Log(response_line(&target)));
            if !target.domain.as_str().is_empty() {
                actions.push(Action::SaveDomain(target.domain.clone()));
            }
            assert forall|i: int| 0 <= i < results@.len() implies (#[trigger] results@[i]).target == target by {
                assert(results@[i].target == target);
            }
            let ghost head = action_views(actions@);
            push_finding_actions(&mut actions, &target, &results);
            proof {
                let d: Seq<ActionView> = if target.domain@.len() > 0 {
                    seq![ActionView::SaveDomain(target.domain@)]
                } else {
                    Seq::empty()
                };
                assert(head =~= seq![ActionView::Log(response_text(target))] + d);
            }
        },
        WorkerMessage::Fail(target, error_context, error) => {
            if !stats.fits_failure(target.protocol.as_str()) {
                return None;
            }
            stats.increment_failed(target.protocol.as_str());
            if debug {
                actions.push(Action::Log(fail_line(&target, error_context.as_str(), &error)));
            }
        },
        WorkerMessage::Timeout(target) => {
            if !stats.fits_timeout(target.protocol.as_str()) {
                return None;
            }
            stats.increment_timedout(target.protocol.as_str());
            if debug {
                actions.push(Action::Log(timeout_line(&target)));
            }
        },
        WorkerMessage::NextTarget => {
            if stats.targets == u64::MAX {
                return None;
            }
            stats.increment_targets();
        },
        WorkerMessage::Shutdown => {
            actions.push(Action::Stop);
        },
    }
    proof {
        assert(action_views(actions@) =~= message_actions(definitions@, debug, msg));
    }
    Some(actions)
}

/// Each message of the worker counts at most once: a response, a failure or
/// a timeout adds at most one request, a target adds one target, and no
/// counter goes down; the limit of targets never changes.
pub proof fn lemma_message_counts_once(stats: Stats, defs: Seq<Definition>, msg: WorkerMessage, elapsed_ms: u128)
    requires
        message_fits(stats, defs, msg, elapsed_ms),
    ensures
        ({
            let next = next_stats(stats, defs, msg, elapsed_ms);
            &&& next.max_targets == stats.max_targets
            &&& stats.targets <= next.targets <= stats.targets + 1
            &&& stats.spec_total() <= next.spec_total() <= stats.spec_total() + 1
            &&& stats.spec_total_successful() <= next.spec_total_successful()
            &&& stats.spec_total_failed() <= next.spec_total_failed()
            &&& stats.spec_total_timedout() <= next.spec_total_timedout()
            &&& stats.matching <= next.matching <= stats.matching + 1
            &&& stats.ports.open <= next.ports.open
            &&& stats.ports.closed <= next.ports.closed
            &&& stats.ports.timedout <= next.ports.timedout
        }),
{
}

proof fn lemma_findings_actions(target: ReqTarget, fs: Seq<Finding>, n: nat)
    requires
        n <= fs.len(),
    ensures
        forall|i: int| 0 <= i < n && (#[trigger] fs[i]).error is None
            ==> findings_actions(target, fs, n).contains(ActionView::SaveService(target, fs[i])),
        forall|i: int| 0 <= i < n && (#[trigger] fs[i]).error is Some
            ==> findings_actions(target, fs, n).contains(ActionView::Log(int_err_text(fs[i].error->0))),
        forall|k: int| 0 <= k < findings_actions(target, fs, n).len()
            ==> !((#[trigger] findings_actions(target, fs, n)[k]) is SaveDomain)
                && !(findings_actions(target, fs, n)[k] is Stop)
                && (findings_actions(target, fs, n)[k] matches ActionView::SaveService(t, f)
                    ==> t == target && f.error is None && fs.take(n as int).contains(f)),
    decreases n,
{
    if n > 0 {
        lemma_findings_actions(target, fs, (n - 1) as nat);
        let prev = findings_actions(target, fs, (n - 1) as nat);
        let last = finding_actions(target, fs[n - 1]);
        let cur = findings_actions(target, fs, n);
        assert(cur == prev + last);
        assert forall|i: int| 0 <= i < n && (#[trigger] fs[i]).error is None
            implies cur.contains(ActionView::SaveService(target, fs[i])) by {
            if i < n - 1 {
                let w = choose|w: int| 0 <= w < prev.len() && prev[w] == ActionView::SaveService(target, fs[i]);
                assert(cur[w] == prev[w]);
            } else {
                assert(cur[prev.len() + 1int] == last[1]);
            }
        }
        assert forall|i: int| 0 <= i < n && (#[trigger] fs[i]).error is Some
            implies cur.contains(ActionView::Log(int_err_text(fs[i].error->0))) by {
            if i < n - 1 {
                let w = choose|w: int| 0 <= w < prev.len() && prev[w] == ActionView::Log(int_err_text(fs[i].error->0));
                assert(cur[w] == prev[w]);
            } else {
                assert(cur[prev.len() as int] == last[0]);
            }
        }
        assert forall|k: int| 0 <= k < cur.len()
            implies !((#[trigger] cur[k]) is SaveDomain) && !(cur[k] is Stop)
                && (cur[k] matches ActionView::SaveService(t, f) ==> t == target && f.error is None && fs.take(n as int).contains(f)) by {
            if k < prev.len() {
                assert(cur[k] == prev[k]);
                if let ActionView::SaveService(t, f) = prev[k] {
                    let m = choose|m: int| 0 <= m < n - 1 && #[trigger] fs.take(n - 1)[m] == f;
                    assert(fs.take(n as int)[m] == f);
                }
            } else {
                assert(cur[k] == last[k - prev.len()]);
                if let ActionView::SaveService(t, f) = cur[k] {
                    assert(f == fs[n - 1]);
                    assert(fs.take(n as int)[n - 1] == f);
                }
            }
        }
    }
}

/// What the run loop does with a response, whatever detection finds: it
/// prints the response first; when the target has a domain, it stores the
/// domain right after, and stores no domain otherwise; it stores every
/// finding without an error, and only those, each for the response's
/// target; it prints every error of a finding; and it does not stop.
pub proof fn lemma_response_actions(defs: Seq<Definition>, debug: bool, target: ReqTarget)
    ensures
        message_actions(defs, debug, WorkerMessage::Response(target)).len() >= 1,
        message_actions(defs, debug, WorkerMessage::Response(target))[0] == ActionView::Log(response_text(target)),
        target.domain@.len() > 0 ==> message_actions(defs, debug, WorkerMessage::Response(target)).len() >= 2
            && message_actions(defs, debug, WorkerMessage::Response(target))[1] == ActionView::SaveDomain(target.domain@),
        forall|k: int| 0 <= k < message_actions(defs, debug, WorkerMessage::Response(target)).len()
            && (#[trigger] message_actions(defs, debug, WorkerMessage::Response(target))[k]) is SaveDomain
            ==> k == 1 && target.domain@.len() > 0,
        forall|f: Finding| spec_detect(target, defs).contains(f) && f.error is None
            ==> #[trigger] message_actions(defs, debug, WorkerMessage::Response(target)).contains(ActionView::SaveService(target, f)),
        forall|f: Finding| spec_detect(target, defs).contains(f) && f.error is Some
            ==> #[trigger] message_actions(defs, debug, WorkerMessage::Response(target)).contains(ActionView::Log(int_err_text(f.error->0))),
        forall|k: int| 0 <= k < message_actions(defs, debug, WorkerMessage::Response(target)).len()
            ==> ((#[trigger] message_actions(defs, debug, WorkerMessage::Response(target))[k]) matches ActionView::SaveService(t, f)
                ==> t == target && f.error is None && spec_detect(target, defs).contains(f)),
        !message_actions(defs, debug, WorkerMessage::Response(target)).contains(ActionView::Stop),
{
    let fs = spec_detect(target, defs);
    let acts = message_actions(defs, debug, WorkerMessage::Response(target));
    let d: Seq<ActionView> = if target.domain@.len() > 0 { seq![ActionView::SaveDomain(target.domain@)] } else { Seq::empty() };
    let head = seq![ActionView::Log(response_text(target))] + d;
    let tail = findings_actions(target, fs, fs.len());
    assert(acts == head + tail);
    lemma_findings_actions(target, fs, fs.len());
    assert(fs.take(fs.len() as int) =~= fs);
    assert(acts[0] == head[0]);
    if target.domain@.len() > 0 {
        assert(acts[1] == head[1]);
    }
    assert forall|k: int| 0 <= k < acts.len() && (#[trigger] acts[k]) is SaveDomain implies k == 1 && target.domain@.len() > 0 by {
        if k >= head.len() {
            assert(acts[k] == tail[k - head.len()]);
        }
    }
    assert forall|f: Finding| fs.contains(f) && f.error is None implies #[trigger] acts.contains(ActionView::SaveService(target, f)) by {
        let i = choose|i: int| 0 <= i < fs.len() && fs[i] == f;
        assert(fs[i].error is None);
        let w = choose|w: int| 0 <= w < tail.len() && tail[w] == ActionView::SaveService(target, fs[i]);
        assert(acts[head.len() + w] == tail[w]);
    }
    assert forall|f: Finding| fs.contains(f) && f.error is Some implies #[trigger] acts.contains(ActionView::Log(int_err_text(f.error->0))) by {
        let i = choose|i: int| 0 <= i < fs.len() && fs[i] == f;
        assert(fs[i].error is Some);
        let w = choose|w: int| 0 <= w < tail.len() && tail[w] == ActionView::Log(int_err_text(fs[i].error->0));
        assert(acts[head.len() + w] == tail[w]);
    }
    assert forall|k: int| 0 <= k < acts.len()
        implies ((#[trigger] acts[k]) matches ActionView::SaveService(t, f) ==> t == target && f.error is None && fs.contains(f)) by {
        if k >= head.len() {
            assert(acts[k] == tail[k - head.len()]);
        }
    }
    if acts.contains(ActionView::Stop) {
        let k = choose|k: int| 0 <= k < acts.len() && acts[k] == ActionView::Stop;
        assert(k >= head.len());
        assert(acts[k] == tail[k - head.len()]);
    }
}

/// An open port is printed and stored, a port found otherwise is neither;
/// only a shutdown stops the loop.
pub proof fn lemma_other_actions(defs: Seq<Definition>, debug: bool, msg: WorkerMessage)
    ensures
        msg matches WorkerMessage::PortTarget(pt) ==> (pt.status == PortStatus::Open
            <==> message_actions(defs, debug, msg).contains(ActionView::SaveOpenPort(pt.ip@, pt.port))),
        msg matches WorkerMessage::PortTarget(pt) && pt.status != PortStatus::Open ==> message_actions(defs, debug, msg).len() == 0,
        msg is Shutdown ==> message_actions(defs, debug, msg) == seq![ActionView::Stop],
        !(msg is Shutdown) && !(msg is Response) ==> !message_actions(defs, debug, msg).contains(ActionView::Stop),
        !debug && (msg is Fail || msg is Timeout) ==> message_actions(defs, debug, msg).len() == 0,
{
    match msg {
        WorkerMessage::PortTarget(pt) => {
            let acts = message_actions(defs, debug, msg);
            if pt.status == PortStatus::Open {
                assert(acts[1] == ActionView::SaveOpenPort(pt.ip@, pt.port));
            }
        },
        WorkerMessage::Fail(t, c, e) => {
            let acts = message_actions(defs, debug, msg);
            if acts.contains(ActionView::Stop) {
                let k = choose|k: int| 0 <= k < acts.len() && acts[k] == ActionView::Stop;
            }
        },
        WorkerMessage::Timeout(t) => {
            let acts = message_actions(defs, debug, msg);
            if acts.contains(ActionView::Stop) {
                let k = choose|k: int| 0 <= k < acts.len() && acts[k] == ActionView::Stop;
            }
        },
        _ => {},
    }
}

} // verus!
