//! Service and version detection on a response.
//!
//! Detection runs in two stages. Probing asks the pattern and version
//! engines about the response (`probe_definition`); deciding turns what they
//! answered into findings (`detect_with_probes`). `detect` does both.

use vstd::prelude::*;
use crate::conf::{Definition, RangeVersion, RegexVersion, SemverVersions};
use crate::matching::{compile_regex, parse_version, version_le, regex_find, regex_capture, regex_compiles, semver_parses, semver_le};
use crate::text::{append, decimal, u64_to_decimal};
use crate::utils::{format_host, spec_format_host};
use crate::worker::ReqTarget;
use crate::validators::{spec_validate, field_errors, versions_errors, semver_errors, error_if, lemma_range_errors_empty, all_regexes_compile};

verus! {

/// A detection result: the target, the service found there, and the version
/// and description where a version rule matched, or an error.
pub struct DetectorResponse {
    pub target: ReqTarget,
    pub service: String,
    pub version: String,
    pub description: String,
    pub error: Option<String>,
}

/// What a detection result says about the target, as text.
pub struct Finding {
    pub service: Seq<char>,
    pub version: Seq<char>,
    pub description: Seq<char>,
    pub error: Option<Seq<char>>,
}

impl Clone for DetectorResponse {
    fn clone(&self) -> (r: Self)
        ensures
            r == *self,
    {
        DetectorResponse {
            target: self.target.clone(),
            service: self.service.clone(),
            version: self.version.clone(),
            description: self.description.clone(),
            error: match &self.error {
                Some(e) => Some(e.clone()),
                None => None,
            },
        }
    }
}

impl DetectorResponse {
    /// What the result says about its target.
    pub open spec fn finding(&self) -> Finding {
        Finding {
            service: self.service@,
            version: self.version@,
            description: self.description@,
            error: match self.error {
                Some(e) => Some(e@),
                None => None,
            },
        }
    }

    /// A result for no target, with every text empty and no error.
    pub fn default() -> (r: DetectorResponse)
        ensures
            r.finding() == (Finding { service: Seq::empty(), version: Seq::empty(), description: Seq::empty(), error: None }),
            r.target.domain@ == Seq::<char>::empty(),
            r.target.ip@ == Seq::<char>::empty(),
            r.target.port == 0,
            r.target.protocol@ == Seq::<char>::empty(),
            r.target.response@ == Seq::<char>::empty(),
    {
        DetectorResponse {
            target: ReqTarget::default(),
            service: String::new(),
            version: String::new(),
            description: String::new(),
            error: None,
        }
    }

    /// A result for a target, with every text empty and no error.
    pub fn new(target: ReqTarget) -> (r: DetectorResponse)
        ensures
            r.target == target,
            r.finding() == (Finding { service: Seq::empty(), version: Seq::empty(), description: Seq::empty(), error: None }),
    {
        let d = DetectorResponse::default();
        DetectorResponse { target, ..d }
    }
}

/// The number of `'.'` in a text.
pub open spec fn dot_count(s: Seq<char>) -> nat
    decreases s.len(),
{
    if s.len() == 0 {
        0
    } else {
        dot_count(s.drop_last()) + if s.last() == '.' { 1nat } else { 0nat }
    }
}

/// A captured version with fewer than two dots gets `".0"` appended
/// (`4.6` becomes `4.6.0`); others stay as they are.
pub open spec fn spec_complete_semver(v: Seq<char>) -> Seq<char> {
    if dot_count(v) < 2 {
        v + ".0"@
    } else {
        v
    }
}

/// Completes a captured version as `spec_complete_semver` says.
pub fn complete_semver(v: &str) -> (r: String)
    ensures
        r@ == spec_complete_semver(v@),
{
    let n = v.unicode_len();
    let mut dots: usize = 0;
    let mut i: usize = 0;
    while i < n
        invariant
            n == v@.len(),
            i <= n,
            dots == dot_count(v@.take(i as int)),
            dots <= i,
        decreases n - i,
    {
        assert(v@.take(i + 1).drop_last() =~= v@.take(i as int));
        if v.get_char(i) == '.' {
            dots = dots + 1;
        }
        i = i + 1;
    }
    assert(v@.take(n as int) =~= v@);
    let mut r = String::from_str(v);
    if dots < 2 {
        append(&mut r, ".0");
    }
    r
}

/// The version ranges of a definition (none without a semantic version rule).
pub open spec fn semver_ranges(def: Definition) -> Seq<RangeVersion> {
    match def.versions {
        Some(v) => match v.semver {
            Some(sv) => sv.ranges@,
            None => Seq::empty(),
        },
        None => Seq::empty(),
    }
}

/// The version patterns of a definition (none without such a list).
pub open spec fn version_patterns(def: Definition) -> Seq<RegexVersion> {
    match def.versions {
        Some(v) => match v.regex {
            Some(list) => list@,
            None => Seq::empty(),
        },
        None => Seq::empty(),
    }
}

/// What the engines answered for one definition on one response.
pub struct DefinitionProbe {
    /// The service pattern matches.
    pub service_found: bool,
    /// The version captured by the semantic version rule.
    pub version_capture: Option<String>,
    /// The completed captured version parses.
    pub version_parsed: bool,
    /// For each version range, whether the version lies in it.
    pub ranges_hit: Vec<bool>,
    /// For each version pattern, whether it matches.
    pub regex_hits: Vec<bool>,
}

/// What a probe holds, as values.
pub struct ProbeView {
    pub service_found: bool,
    pub version_capture: Option<Seq<char>>,
    pub version_parsed: bool,
    pub ranges_hit: Seq<bool>,
    pub regex_hits: Seq<bool>,
}

impl View for DefinitionProbe {
    type V = ProbeView;

    open spec fn view(&self) -> ProbeView {
        ProbeView {
            service_found: self.service_found,
            version_capture: match self.version_capture {
                Some(c) => Some(c@),
                None => None,
            },
            version_parsed: self.version_parsed,
            ranges_hit: self.ranges_hit@,
            regex_hits: self.regex_hits@,
        }
    }
}

/// A probe fits a definition: one answer per version range and per version
/// pattern.
pub open spec fn probe_fits(def: Definition, p: ProbeView) -> bool {
    &&& p.ranges_hit.len() == semver_ranges(def).len()
    &&& p.regex_hits.len() == version_patterns(def).len()
}

/// The version the semantic version rule captured, for a definition with
/// such a rule whose service was found.
pub open spec fn spec_capture(text: Seq<char>, def: Definition) -> Option<Seq<char>> {
    if regex_find(def.service.regex@, text) is Some && def.versions is Some
        && def.versions->0.semver is Some {
        match regex_capture(def.versions->0.semver->0.regex@, text, "version"@) {
            Some(Some(c)) => Some(c),
            _ => None,
        }
    } else {
        None
    }
}

/// Whether the captured version, completed, parses.
pub open spec fn spec_parsed(text: Seq<char>, def: Definition) -> bool {
    spec_capture(text, def) is Some && semver_parses(spec_complete_semver(spec_capture(text, def)->0))
}

/// Whether detection goes on to the version patterns: the service was found,
/// and either there is no semantic version rule or its version parsed.
pub open spec fn reaches_patterns(text: Seq<char>, def: Definition) -> bool {
    &&& regex_find(def.service.regex@, text) is Some
    &&& def.versions is Some
    &&& (def.versions->0.semver is None || spec_parsed(text, def))
}

/// What the engines answer for a definition on a response. Questions that
/// detection does not reach are answered `false` or `None`.
pub open spec fn spec_probe(text: Seq<char>, def: Definition) -> ProbeView {
    let ver = spec_complete_semver(spec_capture(text, def)->0);
    let ranges = semver_ranges(def);
    let patterns = version_patterns(def);
    ProbeView {
        service_found: regex_find(def.service.regex@, text) is Some,
        version_capture: spec_capture(text, def),
        version_parsed: spec_parsed(text, def),
        ranges_hit: Seq::new(
            ranges.len(),
            |i: int| spec_parsed(text, def) && semver_le(ranges[i].from@, ver) && semver_le(ver, ranges[i].to@),
        ),
        regex_hits: Seq::new(
            patterns.len(),
            |j: int| reaches_patterns(text, def) && regex_find(patterns[j].regex@, text) is Some,
        ),
    }
}

/// Detection can run a definition on a response without failing: every
/// pattern it reaches compiles, every version bound it reaches parses, and
/// where the semantic version pattern matches, its group `version` takes part
/// in the match.
pub open spec fn detect_defined(text: Seq<char>, def: Definition) -> bool {
    let ver = spec_complete_semver(spec_capture(text, def)->0);
    let ranges = semver_ranges(def);
    let patterns = version_patterns(def);
    &&& regex_compiles(def.service.regex@)
    &&& (regex_find(def.service.regex@, text) is Some && def.versions is Some
        && def.versions->0.semver is Some) ==> {
        &&& regex_compiles(def.versions->0.semver->0.regex@)
        &&& regex_capture(def.versions->0.semver->0.regex@, text, "version"@) != Some(None::<Seq<char>>)
    }
    &&& spec_parsed(text, def) ==> forall|i: int| 0 <= i < ranges.len() ==> {
        &&& semver_parses(#[trigger] ranges[i].from@)
        &&& semver_le(ranges[i].from@, ver) ==> semver_parses(ranges[i].to@)
    }
    &&& reaches_patterns(text, def) ==> forall|j: int| 0 <= j < patterns.len() ==> regex_compiles(#[trigger] patterns[j].regex@)
}

/// A finding for a service with a version, a description and no error.
pub open spec fn found(service: Seq<char>, version: Seq<char>, description: Seq<char>) -> Finding {
    Finding { service, version, description, error: None }
}

/// The findings of the first `n` version ranges that the version lies in.
pub open spec fn range_findings(service: Seq<char>, version: Seq<char>, ranges: Seq<RangeVersion>, hits: Seq<bool>, n: nat) -> Seq<Finding>
    decreases n,
{
    if n == 0 {
        Seq::empty()
    } else {
        let prev = range_findings(service, version, ranges, hits, (n - 1) as nat);
        if hits[n - 1] {
            prev.push(found(service, version, ranges[n - 1].description@))
        } else {
            prev
        }
    }
}

/// The findings of the first `n` version patterns that match.
pub open spec fn pattern_findings(service: Seq<char>, patterns: Seq<RegexVersion>, hits: Seq<bool>, n: nat) -> Seq<Finding>
    decreases n,
{
    if n == 0 {
        Seq::empty()
    } else {
        let prev = pattern_findings(service, patterns, hits, (n - 1) as nat);
        if hits[n - 1] {
            prev.push(found(service, patterns[n - 1].version@, patterns[n - 1].description@))
        } else {
            prev
        }
    }
}

/// The error reported for a captured version that does not parse.
pub open spec fn semver_error(host: Seq<char>, port: u16, version: Seq<char>) -> Seq<char> {
    "["@ + host + ":"@ + decimal(port as nat) + "] - Unknown or invalid semver: "@ + version
}

/// The findings of one definition, given what the engines answered: nothing
/// when the service was not found; else the service alone if it is logged,
/// then the semantic version findings (one per range the version lies in,
/// or one error when the captured version does not parse, or none when
/// nothing is captured), then the findings of the version patterns, which
/// are skipped when the semantic version rule captured nothing or failed.
pub open spec fn spec_findings(host: Seq<char>, port: u16, def: Definition, p: ProbeView) -> Seq<Finding> {
    let name = def.name@;
    let logged = if def.service.log { seq![found(name, Seq::empty(), Seq::empty())] } else { Seq::empty() };
    let patterns = version_patterns(def);
    let pattern_part = pattern_findings(name, patterns, p.regex_hits, patterns.len());
    if !p.service_found {
        Seq::empty()
    } else {
        match def.versions {
            None => logged,
            Some(v) => match v.semver {
                None => logged + pattern_part,
                Some(sv) => match p.version_capture {
                    None => logged,
                    Some(c) => {
                        let ver = spec_complete_semver(c);
                        if !p.version_parsed {
                            logged.push(Finding {
                                service: name,
                                version: ver,
                                description: Seq::empty(),
                                error: Some(semver_error(host, port, ver)),
                            })
                        } else {
                            logged + range_findings(name, ver, sv.ranges@, p.ranges_hit, sv.ranges@.len())
                                + pattern_part
                        }
                    },
                },
            },
        }
    }
}

/// The findings of the first `n` definitions, in order.
pub open spec fn all_findings(host: Seq<char>, port: u16, defs: Seq<Definition>, probes: Seq<ProbeView>, n: nat) -> Seq<Finding>
    decreases n,
{
    if n == 0 {
        Seq::empty()
    } else {
        all_findings(host, port, defs, probes, (n - 1) as nat) + spec_findings(host, port, defs[n - 1], probes[n - 1])
    }
}

/// What a list of results says.
pub open spec fn findings_of(rs: Seq<DetectorResponse>) -> Seq<Finding> {
    Seq::new(rs.len(), |i: int| rs[i].finding())
}

/// `new` is `old` followed by results for `target` that say `added`.
pub open spec fn extends_with(old: Seq<DetectorResponse>, new: Seq<DetectorResponse>, target: ReqTarget, added: Seq<Finding>) -> bool {
    &&& new.len() == old.len() + added.len()
    &&& forall|i: int| 0 <= i < old.len() ==> new[i] == old[i]
    &&& forall|i: int| old.len() <= i < new.len() ==> (#[trigger] new[i]).target == target && new[i].finding() == added[i - old.len()]
}

proof fn lemma_extends_refl(s: Seq<DetectorResponse>, target: ReqTarget)
    ensures
        extends_with(s, s, target, Seq::empty()),
{
}

proof fn lemma_extends_trans(a: Seq<DetectorResponse>, b: Seq<DetectorResponse>, c: Seq<DetectorResponse>, target: ReqTarget, x: Seq<Finding>, y: Seq<Finding>)
    requires
        extends_with(a, b, target, x),
        extends_with(b, c, target, y),
    ensures
        extends_with(a, c, target, x + y),
{
    assert forall|i: int| a.len() <= i < c.len() implies (#[trigger] c[i]).target == target && c[i].finding() == (x + y)[i - a.len()] by {
        if i < b.len() {
            assert(c[i] == b[i]);
        }
    }
}

fn push_response(out: &mut Vec<DetectorResponse>, target: &ReqTarget, service: &String, version: &String, description: &String, error: Option<String>)
    ensures
        extends_with(old(out)@, final(out)@, *target, seq![Finding {
            service: service@,
            version: version@,
            description: description@,
            error: match error {
                Some(e) => Some(e@),
                None => None,
            },
        }]),
        error is None ==> extends_with(old(out)@, final(out)@, *target, seq![found(service@, version@, description@)]),
{
    let r = DetectorResponse {
        target: target.clone(),
        service: service.clone(),
        version: version.clone(),
        description: description.clone(),
        error,
    };
    out.push(r);
}

/// The findings of one definition on a target, appended to `out`, given what
/// the engines answered (`spec_findings`).
pub fn findings_for_definition(target: &ReqTarget, def: &Definition, probe: &DefinitionProbe, out: &mut Vec<DetectorResponse>)
    requires
        probe_fits(*def, probe@),
    ensures
        extends_with(old(out)@, final(out)@, *target, spec_findings(spec_format_host(target.ip@, target.domain@), target.port, *def, probe@)),
{
    let ghost start = out@;
    let ghost host = spec_format_host(target.ip@, target.domain@);
    let ghost name = def.name@;
    let ghost patterns = version_patterns(*def);
    proof { lemma_extends_refl(start, *target); }
    if !probe.service_found {
        return;
    }
    let empty = String::new();
    if def.service.log {
        push_response(out, target, &def.name, &empty, &empty, None);
    }
    let ghost logged: Seq<Finding> = if def.service.log { seq![found(name, Seq::empty(), Seq::empty())] } else { Seq::empty() };
    assert(extends_with(start, out@, *target, logged)) by {
        if !def.service.log {
            assert(out@ == start);
        }
    }
    let versions = match &def.versions {
        None => { return; },
        Some(v) => v,
    };
    let mut go_on = true;
    let ghost mut done: Seq<Finding> = logged;
    match &versions.semver {
        None => {},
        Some(sv) => {
            match &probe.version_capture {
                None => { return; },
                Some(c) => {
                    let ver = complete_semver(c.as_str());
                    if !probe.version_parsed {
                        let mut msg = String::from_str("[");
                        let host_s = format_host(target);
                        append(&mut msg, host_s.as_str());
                        append(&mut msg, ":");
                        let port_s = u64_to_decimal(target.port as u64);
                        append(&mut msg, port_s.as_str());
                        append(&mut msg, "] - Unknown or invalid semver: ");
                        append(&mut msg, ver.as_str());
                        let ghost mid = out@;
                        push_response(out, target, &def.name, &ver, &empty, Some(msg));
                        proof {
                            assert(msg@ =~= semver_error(host, target.port, ver@));
                            lemma_extends_trans(start, mid, out@, *target, logged, seq![Finding {
                                service: name,
                                version: ver@,
                                description: Seq::empty(),
                                error: Some(msg@),
                            }]);
                            assert(logged + seq![Finding {
                                service: name,
                                version: ver@,
                                description: Seq::empty(),
                                error: Some(msg@),
                            }] =~= spec_findings(host, target.port, *def, probe@));
                        }
                        return;
                    }
                    let mut i: usize = 0;
                    let n = sv.ranges.len();
                    while i < n
                        invariant
                            n == sv.ranges@.len(),
                            name == def.name@,
                            i <= n,
                            probe.ranges_hit@.len() == n,
                            extends_with(start, out@, *target, logged + range_findings(name, ver@, sv.ranges@, probe.ranges_hit@, i as nat)),
                        decreases n - i,
                    {
                        let ghost mid = out@;
                        if probe.ranges_hit[i] {
                            let d = &sv.ranges[i].description;
                            push_response(out, target, &def.name, &ver, d, None);
                            proof {
                                assert(seq![found(name, ver@, sv.ranges@[i as int].description@)] =~= seq![found(name, ver@, d@)]);
                                lemma_extends_trans(start, mid, out@, *target,
                                    logged + range_findings(name, ver@, sv.ranges@, probe.ranges_hit@, i as nat),
                                    seq![found(name, ver@, sv.ranges@[i as int].description@)]);
                                assert(logged + range_findings(name, ver@, sv.ranges@, probe.ranges_hit@, (i + 1) as nat)
                                    =~= logged + range_findings(name, ver@, sv.ranges@, probe.ranges_hit@, i as nat)
                                    + seq![found(name, ver@, sv.ranges@[i as int].description@)]);
                            }
                        }
                        i = i + 1;
                    }
                    proof { done = logged + range_findings(name, ver@, sv.ranges@, probe.ranges_hit@, n as nat); }
                },
            }
        },
    }
    assert(extends_with(start, out@, *target, done));
    match &versions.regex {
        None => {
            assert(patterns.len() == 0);
            assert(done =~= done + pattern_findings(name, patterns, probe.regex_hits@, 0));
        },
        Some(list) => {
            let mut j: usize = 0;
            let n = list.len();
            while j < n
                invariant
                    n == list@.len(),
                    name == def.name@,
                    patterns == list@,
                    j <= n,
                    probe.regex_hits@.len() == n,
                    extends_with(start, out@, *target, done + pattern_findings(name, patterns, probe.regex_hits@, j as nat)),
                decreases n - j,
            {
                let ghost mid = out@;
                if probe.regex_hits[j] {
                    let lv = &list[j].version;
                    let ld = &list[j].description;
                    push_response(out, target, &def.name, lv, ld, None);
                    proof {
                        assert(seq![found(name, patterns[j as int].version@, patterns[j as int].description@)] =~= seq![found(name, lv@, ld@)]);
                        lemma_extends_trans(start, mid, out@, *target,
                            done + pattern_findings(name, patterns, probe.regex_hits@, j as nat),
                            seq![found(name, patterns[j as int].version@, patterns[j as int].description@)]);
                        assert(done + pattern_findings(name, patterns, probe.regex_hits@, (j + 1) as nat)
                            =~= done + pattern_findings(name, patterns, probe.regex_hits@, j as nat)
                            + seq![found(name, patterns[j as int].version@, patterns[j as int].description@)]);
                    }
                }
                j = j + 1;
            }
        },
    }
    assert(done + pattern_findings(name, patterns, probe.regex_hits@, patterns.len()) =~= spec_findings(host, target.port, *def, probe@));
}

/// What a list of probes holds, as values.
pub open spec fn probe_views(ps: Seq<DefinitionProbe>) -> Seq<ProbeView> {
    Seq::new(ps.len(), |i: int| ps[i]@)
}

/// The findings of every definition on a target, in order, given what the
/// engines answered for each (`all_findings`).
pub fn detect_with_probes(target: &ReqTarget, definitions: &[Definition], probes: &Vec<DefinitionProbe>) -> (r: Vec<DetectorResponse>)
    requires
        probes@.len() == definitions@.len(),
        forall|i: int| 0 <= i < definitions@.len() ==> probe_fits(#[trigger] definitions@[i], probes@[i]@),
    ensures
        extends_with(Seq::empty(), r@, *target, all_findings(spec_format_host(target.ip@, target.domain@), target.port,
            definitions@, probe_views(probes@), definitions@.len())),
{
    let ghost host = spec_format_host(target.ip@, target.domain@);
    let mut out: Vec<DetectorResponse> = Vec::new();
    let n = definitions.len();
    let mut i: usize = 0;
    proof { lemma_extends_refl(out@, *target); }
    while i < n
        invariant
            n == definitions@.len(),
            probes@.len() == n,
            i <= n,
            forall|k: int| 0 <= k < definitions@.len() ==> probe_fits(#[trigger] definitions@[k], probes@[k]@),
            host == spec_format_host(target.ip@, target.domain@),
            extends_with(Seq::empty(), out@, *target, all_findings(host, target.port, definitions@, probe_views(probes@), i as nat)),
        decreases n - i,
    {
        let ghost mid = out@;
        assert(probe_fits(definitions@[i as int], probes@[i as int]@));
        findings_for_definition(target, &definitions[i], &probes[i], &mut out);
        proof {
            assert(probe_views(probes@)[i as int] == probes@[i as int]@);
            lemma_extends_trans(Seq::empty(), mid, out@, *target,
                all_findings(host, target.port, definitions@, probe_views(probes@), i as nat),
                spec_findings(host, target.port, definitions@[i as int], probes@[i as int]@));
        }
        i = i + 1;
    }
    out
}

fn falses(n: usize) -> (v: Vec<bool>)
    ensures
        v@ == Seq::new(n as nat, |i: int| false),
{
    let mut v: Vec<bool> = Vec::new();
    let mut i: usize = 0;
    while i < n
        invariant
            i <= n,
            v@ == Seq::new(i as nat, |k: int| false),
        decreases n - i,
    {
        v.push(false);
        i = i + 1;
        assert(v@ =~= Seq::new(i as nat, |k: int| false));
    }
    v
}

/// Asks the engines what detection needs to know of one definition on a
/// target's response. `None` where running the definition would fail
/// (`detect_defined` does not hold).
#[verifier::loop_isolation(false)]
pub fn probe_definition(target: &ReqTarget, def: &Definition) -> (r: Option<DefinitionProbe>)
    ensures
        r is Some == detect_defined(target.response@, *def),
        r matches Some(p) ==> p@ == spec_probe(target.response@, *def),
{
    let text = target.response.as_str();
    let ghost t = target.response@;
    let ghost sp = spec_probe(t, *def);
    let n_ranges: usize = match &def.versions {
        Some(v) => match &v.semver {
            Some(sv) => sv.ranges.len(),
            None => 0,
        },
        None => 0,
    };
    let n_patterns: usize = match &def.versions {
        Some(v) => match &v.regex {
            Some(list) => list.len(),
            None => 0,
        },
        None => 0,
    };
    let service_re = match compile_regex(def.service.regex.as_str()) {
        None => { return None; },
        Some(r) => r,
    };
    let service_found = service_re.find(text).is_some();
    if !service_found {
        let p = DefinitionProbe {
            service_found: false,
            version_capture: None,
            version_parsed: false,
            ranges_hit: falses(n_ranges),
            regex_hits: falses(n_patterns),
        };
        assert(p@.ranges_hit =~= sp.ranges_hit);
        assert(p@.regex_hits =~= sp.regex_hits);
        return Some(p);
    }
    let versions = match &def.versions {
        None => {
            let p = DefinitionProbe {
                service_found: true,
                version_capture: None,
                version_parsed: false,
                ranges_hit: falses(0),
                regex_hits: falses(0),
            };
            assert(p@.ranges_hit =~= sp.ranges_hit);
            assert(p@.regex_hits =~= sp.regex_hits);
            return Some(p);
        },
        Some(v) => v,
    };
    let mut capture: Option<String> = None;
    let mut parsed = false;
    let mut ranges_hit = falses(n_ranges);
    match &versions.semver {
        None => {},
        Some(sv) => {
            let re = match compile_regex(sv.regex.as_str()) {
                None => { return None; },
                Some(r) => r,
            };
            match re.capture(text, "version") {
                None => {},
                Some(None) => { return None; },
                Some(Some(c)) => {
                    let ver = complete_semver(c.as_str());
                    let ghost verv = ver@;
                    match parse_version(ver.as_str()) {
                        None => {},
                        Some(v) => {
                            parsed = true;
                            let mut hits: Vec<bool> = Vec::new();
                            let mut i: usize = 0;
                            while i < n_ranges
                                invariant
                                    n_ranges == sv.ranges@.len(),
                                    i <= n_ranges,
                                    v@ == verv,
                                    hits@.len() == i,
                                    forall|k: int| 0 <= k < i ==> {
                                        &&& semver_parses(#[trigger] sv.ranges@[k].from@)
                                        &&& semver_le(sv.ranges@[k].from@, verv) ==> semver_parses(sv.ranges@[k].to@)
                                        &&& hits@[k] == (semver_le(sv.ranges@[k].from@, verv) && semver_le(verv, sv.ranges@[k].to@))
                                    },
                                decreases n_ranges - i,
                            {
                                let from = match parse_version(sv.ranges[i].from.as_str()) {
                                    None => { return None; },
                                    Some(f) => f,
                                };
                                let hit = if version_le(&from, &v) {
                                    let to = match parse_version(sv.ranges[i].to.as_str()) {
                                        None => { return None; },
                                        Some(x) => x,
                                    };
                                    version_le(&v, &to)
                                } else {
                                    false
                                };
                                hits.push(hit);
                                i = i + 1;
                            }
                            ranges_hit = hits;
                        },
                    }
                    capture = Some(c);
                },
            }
        },
    }
    let reached = versions.semver.is_none() || parsed;
    let regex_hits = if reached {
        match &versions.regex {
            None => falses(0),
            Some(list) => {
                let mut hits: Vec<bool> = Vec::new();
                let mut j: usize = 0;
                while j < n_patterns
                    invariant
                        n_patterns == list@.len(),
                        j <= n_patterns,
                        hits@.len() == j,
                        forall|k: int| 0 <= k < j ==> {
                            &&& regex_compiles(#[trigger] list@[k].regex@)
                            &&& hits@[k] == regex_find(list@[k].regex@, t) is Some
                        },
                    decreases n_patterns - j,
                {
                    let re = match compile_regex(list[j].regex.as_str()) {
                        None => { return None; },
                        Some(r) => r,
                    };
                    hits.push(re.find(text).is_some());
                    j = j + 1;
                }
                hits
            },
        }
    } else {
        falses(n_patterns)
    };
    let p = DefinitionProbe {
        service_found: true,
        version_capture: capture,
        version_parsed: parsed,
        ranges_hit,
        regex_hits,
    };
    assert(p@.version_capture == sp.version_capture);
    assert(p@.ranges_hit =~= sp.ranges_hit);
    assert(p@.regex_hits =~= sp.regex_hits);
    Some(p)
}

/// Detection can run every definition on the response without failing.
pub open spec fn all_defined(text: Seq<char>, defs: Seq<Definition>) -> bool {
    forall|i: int| 0 <= i < defs.len() ==> detect_defined(text, #[trigger] defs[i])
}

/// What the engines answer for every definition on the response.
pub open spec fn spec_probes(text: Seq<char>, defs: Seq<Definition>) -> Seq<ProbeView> {
    Seq::new(defs.len(), |i: int| spec_probe(text, defs[i]))
}

/// The findings of detection on a target, as `all_findings` says of the
/// engines' answers.
pub open spec fn spec_detect(target: ReqTarget, defs: Seq<Definition>) -> Seq<Finding> {
    all_findings(spec_format_host(target.ip@, target.domain@), target.port, defs,
        spec_probes(target.response@, defs), defs.len())
}

/// Runs every definition on the target's response and returns the findings,
/// each for `target`, in the order of the definitions.
pub fn detect(target: &ReqTarget, definitions: &[Definition]) -> (r: Vec<DetectorResponse>)
    requires
        all_defined(target.response@, definitions@),
    ensures
        extends_with(Seq::empty(), r@, *target, spec_detect(*target, definitions@)),
{
    let ghost text = target.response@;
    let mut probes: Vec<DefinitionProbe> = Vec::new();
    let n = definitions.len();
    let mut i: usize = 0;
    while i < n
        invariant
            n == definitions@.len(),
            i <= n,
            text == target.response@,
            all_defined(text, definitions@),
            probes@.len() == i,
            forall|k: int| 0 <= k < i ==> (#[trigger] probes@[k])@ == spec_probe(text, definitions@[k]),
        decreases n - i,
    {
        assert(detect_defined(text, definitions@[i as int]));
        match probe_definition(target, &definitions[i]) {
            Some(p) => { probes.push(p); },
            None => { assert(false); return Vec::new(); },
        }
        i = i + 1;
    }
    assert(probe_views(probes@) =~= spec_probes(text, definitions@));
    assert forall|k: int| 0 <= k < definitions@.len() implies probe_fits(#[trigger] definitions@[k], probes@[k]@) by {
        assert(probes@[k]@ == spec_probe(text, definitions@[k]));
    }
    detect_with_probes(target, definitions, &probes)
}

/// `detect` where every definition can run on the response; `None` where
/// one cannot (`all_defined` does not hold).
pub fn try_detect(target: &ReqTarget, definitions: &[Definition]) -> (r: Option<Vec<DetectorResponse>>)
    ensures
        r is Some == all_defined(target.response@, definitions@),
        r matches Some(v) ==> extends_with(Seq::empty(), v@, *target, spec_detect(*target, definitions@)),
{
    let n = definitions.len();
    let mut i: usize = 0;
    while i < n
        invariant
            n == definitions@.len(),
            i <= n,
            forall|k: int| 0 <= k < i ==> detect_defined(target.response@, #[trigger] definitions@[k]),
        decreases n - i,
    {
        if probe_definition(target, &definitions[i]).is_none() {
            return None;
        }
        i = i + 1;
    }
    Some(detect(target, definitions))
}

proof fn lemma_all_findings_prefix(host: Seq<char>, port: u16, da: Seq<Definition>, pa: Seq<ProbeView>,
    db: Seq<Definition>, pb: Seq<ProbeView>, k: nat)
    requires
        k <= da.len(),
        k <= db.len(),
        k <= pa.len(),
        k <= pb.len(),
        forall|i: int| 0 <= i < k ==> da[i] == db[i] && pa[i] == pb[i],
    ensures
        all_findings(host, port, da, pa, k) == all_findings(host, port, db, pb, k),
    decreases k,
{
    if k > 0 {
        lemma_all_findings_prefix(host, port, da, pa, db, pb, (k - 1) as nat);
    }
}

proof fn lemma_all_findings_concat(target: ReqTarget, d1: Seq<Definition>, d2: Seq<Definition>, n: nat)
    requires
        n <= d2.len(),
    ensures
        ({
            let host = spec_format_host(target.ip@, target.domain@);
            let text = target.response@;
            all_findings(host, target.port, d1 + d2, spec_probes(text, d1 + d2), d1.len() + n)
                == all_findings(host, target.port, d1, spec_probes(text, d1), d1.len())
                + all_findings(host, target.port, d2, spec_probes(text, d2), n)
        }),
    decreases n,
{
    let host = spec_format_host(target.ip@, target.domain@);
    let text = target.response@;
    let d = d1 + d2;
    if n == 0 {
        lemma_all_findings_prefix(host, target.port, d, spec_probes(text, d), d1, spec_probes(text, d1), d1.len());
        assert(all_findings(host, target.port, d2, spec_probes(text, d2), 0) == Seq::<Finding>::empty());
        assert(all_findings(host, target.port, d1, spec_probes(text, d1), d1.len())
            + Seq::<Finding>::empty() =~= all_findings(host, target.port, d1, spec_probes(text, d1), d1.len()));
    } else {
        lemma_all_findings_concat(target, d1, d2, (n - 1) as nat);
        let m = d1.len() + n - 1;
        assert(d[m] == d2[n - 1]);
        assert(spec_probes(text, d)[m] == spec_probes(text, d2)[n - 1]);
        let a = all_findings(host, target.port, d1, spec_probes(text, d1), d1.len());
        let b = all_findings(host, target.port, d2, spec_probes(text, d2), (n - 1) as nat);
        let f = spec_findings(host, target.port, d2[n - 1], spec_probes(text, d2)[n - 1]);
        assert(a + b + f =~= a + (b + f));
    }
}

/// Detection distributes over joined lists of definitions: on `d1 + d2` it
/// finds what it finds on `d1`, followed by what it finds on `d2`, and it
/// can run on `d1 + d2` exactly when it can run on both; on no definitions
/// it finds nothing.
pub proof fn lemma_detect_concat(target: ReqTarget, d1: Seq<Definition>, d2: Seq<Definition>)
    ensures
        spec_detect(target, d1 + d2) == spec_detect(target, d1) + spec_detect(target, d2),
        all_defined(target.response@, d1 + d2) == (all_defined(target.response@, d1) && all_defined(target.response@, d2)),
        spec_detect(target, Seq::empty()) == Seq::<Finding>::empty(),
{
    lemma_all_findings_concat(target, d1, d2, d2.len());
    let d = d1 + d2;
    let text = target.response@;
    if all_defined(text, d) {
        assert forall|i: int| 0 <= i < d1.len() implies detect_defined(text, #[trigger] d1[i]) by {
            assert(d[i] == d1[i]);
        }
        assert forall|i: int| 0 <= i < d2.len() implies detect_defined(text, #[trigger] d2[i]) by {
            assert(d[d1.len() + i] == d2[i]);
        }
    }
    if all_defined(text, d1) && all_defined(text, d2) {
        assert forall|i: int| 0 <= i < d.len() implies detect_defined(text, #[trigger] d[i]) by {
            if i < d1.len() {
                assert(d[i] == d1[i]);
            } else {
                assert(d[i] == d2[i - d1.len()]);
            }
        }
    }
}

proof fn lemma_range_findings_has(service: Seq<char>, version: Seq<char>, ranges: Seq<RangeVersion>, hits: Seq<bool>, n: nat, i: int)
    requires
        0 <= i < n,
        n <= ranges.len(),
        n <= hits.len(),
        hits[i],
    ensures
        range_findings(service, version, ranges, hits, n).contains(found(service, version, ranges[i].description@)),
    decreases n,
{
    let x = found(service, version, ranges[i].description@);
    let prev = range_findings(service, version, ranges, hits, (n - 1) as nat);
    let cur = range_findings(service, version, ranges, hits, n);
    if i == n - 1 {
        assert(cur[prev.len() as int] == x);
    } else {
        lemma_range_findings_has(service, version, ranges, hits, (n - 1) as nat, i);
        let w = choose|w: int| 0 <= w < prev.len() && prev[w] == x;
        assert(cur[w] == prev[w]);
    }
}

proof fn lemma_all_findings_has(host: Seq<char>, port: u16, defs: Seq<Definition>, probes: Seq<ProbeView>, n: nat, j: int, f: Finding)
    requires
        0 <= j < n,
        spec_findings(host, port, defs[j], probes[j]).contains(f),
    ensures
        all_findings(host, port, defs, probes, n).contains(f),
    decreases n,
{
    let prev = all_findings(host, port, defs, probes, (n - 1) as nat);
    let last = spec_findings(host, port, defs[n - 1], probes[n - 1]);
    let cur = all_findings(host, port, defs, probes, n);
    assert(cur == prev + last);
    if j == n - 1 {
        let w = choose|w: int| 0 <= w < last.len() && last[w] == f;
        assert(cur[prev.len() + w] == last[w]);
    } else {
        lemma_all_findings_has(host, port, defs, probes, (n - 1) as nat, j, f);
        let w = choose|w: int| 0 <= w < prev.len() && prev[w] == f;
        assert(cur[w] == prev[w]);
    }
}

/// A version that lies in a version range, both bounds included, is
/// reported: where a definition's service is found in the response, its
/// semantic version rule captures `c`, and the completed version parses
/// and orders at or above the range's `from` and at or below its `to`,
/// detection reports the service with that version and the range's
/// description, and no error. A version equal to a bound is thus reported.
pub proof fn lemma_version_in_range_reported(target: ReqTarget, defs: Seq<Definition>, j: int, sv: SemverVersions, c: Seq<char>, i: int)
    requires
        0 <= j < defs.len(),
        regex_find(defs[j].service.regex@, target.response@) is Some,
        defs[j].versions is Some,
        defs[j].versions->0.semver == Some(sv),
        regex_capture(sv.regex@, target.response@, "version"@) == Some(Some(c)),
        semver_parses(spec_complete_semver(c)),
        0 <= i < sv.ranges@.len(),
        semver_le(sv.ranges@[i].from@, spec_complete_semver(c)),
        semver_le(spec_complete_semver(c), sv.ranges@[i].to@),
    ensures
        spec_detect(target, defs).contains(Finding {
            service: defs[j].name@,
            version: spec_complete_semver(c),
            description: sv.ranges@[i].description@,
            error: None,
        }),
{
    let text = target.response@;
    let host = spec_format_host(target.ip@, target.domain@);
    let def = defs[j];
    let ver = spec_complete_semver(c);
    let probes = spec_probes(text, defs);
    let p = probes[j];
    assert(p == spec_probe(text, def));
    assert(spec_capture(text, def) == Some(c));
    assert(p.version_capture == Some(c));
    assert(p.version_parsed);
    assert(p.ranges_hit[i]);
    let f = found(def.name@, ver, sv.ranges@[i].description@);
    lemma_range_findings_has(def.name@, ver, sv.ranges@, p.ranges_hit, sv.ranges@.len(), i);
    let logged = if def.service.log { seq![found(def.name@, Seq::empty(), Seq::empty())] } else { Seq::empty() };
    let rf = range_findings(def.name@, ver, sv.ranges@, p.ranges_hit, sv.ranges@.len());
    let pp = pattern_findings(def.name@, version_patterns(def), p.regex_hits, version_patterns(def).len());
    let all = spec_findings(host, target.port, def, p);
    assert(all == logged + rf + pp);
    let w = choose|w: int| 0 <= w < rf.len() && rf[w] == f;
    assert(all[logged.len() + w] == rf[w]);
    lemma_all_findings_has(host, target.port, defs, probes, defs.len(), j, f);
}

proof fn lemma_pattern_findings_has(service: Seq<char>, patterns: Seq<RegexVersion>, hits: Seq<bool>, n: nat, i: int)
    requires
        0 <= i < n,
        n <= patterns.len(),
        n <= hits.len(),
        hits[i],
    ensures
        pattern_findings(service, patterns, hits, n).contains(found(service, patterns[i].version@, patterns[i].description@)),
    decreases n,
{
    let x = found(service, patterns[i].version@, patterns[i].description@);
    let prev = pattern_findings(service, patterns, hits, (n - 1) as nat);
    let cur = pattern_findings(service, patterns, hits, n);
    if i == n - 1 {
        assert(cur[prev.len() as int] == x);
    } else {
        lemma_pattern_findings_has(service, patterns, hits, (n - 1) as nat, i);
        let w = choose|w: int| 0 <= w < prev.len() && prev[w] == x;
        assert(cur[w] == prev[w]);
    }
}

proof fn lemma_all_findings_none(host: Seq<char>, port: u16, defs: Seq<Definition>, probes: Seq<ProbeView>, n: nat)
    requires
        n <= defs.len(),
        n <= probes.len(),
        forall|j: int| 0 <= j < n ==> !(#[trigger] probes[j]).service_found,
    ensures
        all_findings(host, port, defs, probes, n) == Seq::<Finding>::empty(),
    decreases n,
{
    if n > 0 {
        lemma_all_findings_none(host, port, defs, probes, (n - 1) as nat);
        assert(!probes[n - 1].service_found);
        assert(all_findings(host, port, defs, probes, n) =~= Seq::<Finding>::empty());
    }
}

/// What detection reports of a definition whose service is found in the
/// response: the service alone (no version, no description) when the
/// definition asks for it to be logged; each version pattern that matches,
/// with its version and description, when there is no semantic version rule
/// or its captured version parses; and, when the captured version does not
/// parse, an error naming the target and that version. Where no definition's
/// service is found, detection reports nothing.
pub proof fn lemma_detection_reports(target: ReqTarget, defs: Seq<Definition>, j: int, k: int, c: Seq<char>)
    requires
        0 <= j < defs.len(),
    ensures
        regex_find(defs[j].service.regex@, target.response@) is Some && defs[j].service.log
            ==> spec_detect(target, defs).contains(Finding {
                service: defs[j].name@,
                version: Seq::empty(),
                description: Seq::empty(),
                error: None,
            }),
        regex_find(defs[j].service.regex@, target.response@) is Some && defs[j].versions is Some
            && (defs[j].versions->0.semver is None
                || (regex_capture(defs[j].versions->0.semver->0.regex@, target.response@, "version"@) == Some(Some(c))
                    && semver_parses(spec_complete_semver(c))))
            && 0 <= k < version_patterns(defs[j]).len()
            && regex_find(version_patterns(defs[j])[k].regex@, target.response@) is Some
            ==> spec_detect(target, defs).contains(Finding {
                service: defs[j].name@,
                version: version_patterns(defs[j])[k].version@,
                description: version_patterns(defs[j])[k].description@,
                error: None,
            }),
        regex_find(defs[j].service.regex@, target.response@) is Some && defs[j].versions is Some
            && defs[j].versions->0.semver is Some
            && regex_capture(defs[j].versions->0.semver->0.regex@, target.response@, "version"@) == Some(Some(c))
            && !semver_parses(spec_complete_semver(c))
            ==> spec_detect(target, defs).contains(Finding {
                service: defs[j].name@,
                version: spec_complete_semver(c),
                description: Seq::empty(),
                error: Some("["@ + spec_format_host(target.ip@, target.domain@) + ":"@ + decimal(target.port as nat)
                    + "] - Unknown or invalid semver: "@ + spec_complete_semver(c)),
            }),
        (forall|i: int| 0 <= i < defs.len() ==> regex_find((#[trigger] defs[i]).service.regex@, target.response@) is None)
            ==> spec_detect(target, defs) == Seq::<Finding>::empty(),
{
    let text = target.response@;
    let host = spec_format_host(target.ip@, target.domain@);
    let def = defs[j];
    let probes = spec_probes(text, defs);
    let p = probes[j];
    assert(p == spec_probe(text, def));
    let name = def.name@;
    let logged = if def.service.log { seq![found(name, Seq::empty(), Seq::empty())] } else { Seq::empty() };
    let patterns = version_patterns(def);
    let pp = pattern_findings(name, patterns, p.regex_hits, patterns.len());
    let all = spec_findings(host, target.port, def, p);
    if regex_find(def.service.regex@, text) is Some && def.service.log {
        let f = found(name, Seq::empty(), Seq::empty());
        assert(all[0] == f);
        lemma_all_findings_has(host, target.port, defs, probes, defs.len(), j, f);
    }
    if regex_find(def.service.regex@, text) is Some && def.versions is Some
        && (def.versions->0.semver is None
            || (regex_capture(def.versions->0.semver->0.regex@, text, "version"@) == Some(Some(c))
                && semver_parses(spec_complete_semver(c))))
        && 0 <= k < patterns.len() && regex_find(patterns[k].regex@, text) is Some {
        assert(p.regex_hits[k]);
        let f = found(name, patterns[k].version@, patterns[k].description@);
        lemma_pattern_findings_has(name, patterns, p.regex_hits, patterns.len(), k);
        let w = choose|w: int| 0 <= w < pp.len() && pp[w] == f;
        match def.versions->0.semver {
            None => {
                assert(all == logged + pp);
                assert(all[logged.len() + w] == pp[w]);
            },
            Some(sv) => {
                let ver = spec_complete_semver(spec_capture(text, def)->0);
                let rf = range_findings(name, ver, sv.ranges@, p.ranges_hit, sv.ranges@.len());
                assert(all == logged + rf + pp);
                assert(all[logged.len() + rf.len() + w] == pp[w]);
            },
        }
        lemma_all_findings_has(host, target.port, defs, probes, defs.len(), j, f);
    }
    if regex_find(def.service.regex@, text) is Some && def.versions is Some && def.versions->0.semver is Some
        && regex_capture(def.versions->0.semver->0.regex@, text, "version"@) == Some(Some(c))
        && !semver_parses(spec_complete_semver(c)) {
        assert(spec_capture(text, def) == Some(c));
        let ver = spec_complete_semver(c);
        let f = Finding { service: name, version: ver, description: Seq::empty(), error: Some(semver_error(host, target.port, ver)) };
        assert(all == logged.push(f));
        assert(all[logged.len() as int] == f);
        lemma_all_findings_has(host, target.port, defs, probes, defs.len(), j, f);
    }
    if forall|i: int| 0 <= i < defs.len() ==> regex_find((#[trigger] defs[i]).service.regex@, text) is None {
        assert forall|i: int| 0 <= i < defs.len() implies !(#[trigger] probes[i]).service_found by {
            assert(probes[i] == spec_probe(text, defs[i]));
            assert(regex_find(defs[i].service.regex@, text) is None);
        }
        lemma_all_findings_none(host, target.port, defs, probes, defs.len());
    }
}

/// A definition that passes validation never makes detection fail on a
/// response, unless its semantic version pattern matches the response
/// without its group `version` taking part in the match.
pub proof fn lemma_validated_definition_runs(text: Seq<char>, def: Definition)
    requires
        spec_validate(def) is Ok,
        def.versions is Some && def.versions->0.semver is Some ==>
            regex_capture(def.versions->0.semver->0.regex@, text, "version"@) != Some(None::<Seq<char>>),
    ensures
        detect_defined(text, def),
{
    let fe = field_errors(def);
    assert(fe.len() == 0);
    let e1 = error_if(!crate::validators::is_protocol(def.protocol@), crate::validators::ValidationError::InvalidProtocol);
    let e2 = error_if(!regex_compiles(def.service.regex@), crate::validators::ValidationError::InvalidRegex);
    match def.versions {
        Some(v) => {
            let ve = versions_errors(v);
            assert(fe == e1 + e2 + ve);
            assert(ve.len() == 0);
            match v.semver {
                Some(sv) => {
                    let se = semver_errors(sv);
                    let re = match v.regex {
                        Some(rv) => error_if(!all_regexes_compile(rv@), crate::validators::ValidationError::InvalidRegex),
                        None => Seq::empty(),
                    };
                    assert(ve == se + re);
                    assert(se.len() == 0);
                    let first = error_if(!regex_compiles(sv.regex@), crate::validators::ValidationError::InvalidRegex);
                    let rest = crate::validators::range_errors(sv.ranges@, sv.ranges@.len());
                    assert(se == first + rest);
                    lemma_range_errors_empty(sv.ranges@, sv.ranges@.len());
                    match v.regex {
                        Some(rv) => { assert(re.len() == 0); },
                        None => {},
                    }
                },
                None => {
                    match v.regex {
                        Some(rv) => {
                            assert(ve == Seq::<crate::validators::ValidationError>::empty() + error_if(!all_regexes_compile(rv@), crate::validators::ValidationError::InvalidRegex));
                        },
                        None => {},
                    }
                },
            }
        },
        None => {},
    }
}

} // verus!
