//! The scanner's configuration: detection definitions, database settings and
//! the settings of a run.

use vstd::prelude::*;
use crate::text::{append, owned, str_eq};

verus! {

/// Where the database lives and how to log in.
pub struct DbConf {
    pub host: String,
    pub port: String,
    pub dbname: String,
    pub user: String,
    pub password: String,
}

impl DbConf {
    /// All fields empty.
    pub fn default() -> (c: DbConf)
        ensures
            c.host@ == Seq::<char>::empty(),
            c.port@ == Seq::<char>::empty(),
            c.dbname@ == Seq::<char>::empty(),
            c.user@ == Seq::<char>::empty(),
            c.password@ == Seq::<char>::empty(),
    {
        DbConf {
            host: String::new(),
            port: String::new(),
            dbname: String::new(),
            user: String::new(),
            password: String::new(),
        }
    }
}

/// The addresses of one subnet that are scanned: `first..=last`.
#[derive(Clone, Copy, Debug, PartialEq, Eq, Structural)]
pub struct HostRange {
    pub first: u32,
    pub last: u32,
}

/// The settings of a run.
pub struct Conf {
    pub db_conf: DbConf,
    pub definitions: Vec<Definition>,
    pub dataset: String,
    /// The host ranges of the subnets to scan, in the order given.
    pub subnets: Vec<HostRange>,
    pub user_agent: String,
    pub max_targets: u64,
    pub req_timeout: u64,
    pub max_concurrent_requests: usize,
    pub debug: bool,
    pub web_ui: bool,
    pub max_response_size: usize,
}

impl Conf {
    /// The settings before any option is read: no definitions, no targets,
    /// a request timeout of 10 s, unlimited concurrency and responses cut at
    /// 10240 bytes.
    pub fn default() -> (c: Conf)
        ensures
            c.definitions@.len() == 0,
            c.dataset@ == Seq::<char>::empty(),
            c.subnets@.len() == 0,
            c.user_agent@ == Seq::<char>::empty(),
            c.max_targets == 0,
            c.req_timeout == 10,
            c.max_concurrent_requests == 0,
            !c.debug,
            !c.web_ui,
            c.max_response_size == 10240,
            c.db_conf.host@ == Seq::<char>::empty(),
            c.db_conf.port@ == Seq::<char>::empty(),
            c.db_conf.dbname@ == Seq::<char>::empty(),
            c.db_conf.user@ == Seq::<char>::empty(),
            c.db_conf.password@ == Seq::<char>::empty(),
    {
        Conf {
            db_conf: DbConf::default(),
            definitions: Vec::new(),
            dataset: String::new(),
            subnets: Vec::new(),
            user_agent: String::new(),
            max_targets: 0,
            req_timeout: 10,
            max_concurrent_requests: 0,
            debug: false,
            web_ui: false,
            max_response_size: 10240,
        }
    }
}

/// A detection rule: how to probe a service and how to recognise it and its
/// version in the response.
pub struct Definition {
    pub name: String,
    /// `"http/s"` or `"tcp/custom"`.
    pub protocol: String,
    pub options: Options,
    pub service: Service,
    pub versions: Option<Versions>,
}

/// How to probe.
pub struct Options {
    pub method: Option<String>,
    pub path: Option<String>,
    pub headers: Option<Vec<(String, String)>>,
    pub ports: Vec<u16>,
    pub timeout: Option<bool>,
    pub payload: Option<String>,
}

/// How to recognise the service: a pattern on the response, and whether a
/// recognised service is reported by itself.
pub struct Service {
    pub regex: String,
    pub log: bool,
}

/// How to recognise the version.
pub struct Versions {
    pub semver: Option<SemverVersions>,
    pub regex: Option<Vec<RegexVersion>>,
}

/// A pattern whose group `version` captures a semantic version, and the
/// ranges of versions that are reported.
pub struct SemverVersions {
    pub regex: String,
    pub ranges: Vec<RangeVersion>,
}

/// A range of versions, `from` and `to` included, and what to report for it.
pub struct RangeVersion {
    pub from: String,
    pub to: String,
    pub description: String,
}

/// A pattern that identifies one version, and what to report for it.
pub struct RegexVersion {
    pub regex: String,
    pub version: String,
    pub description: String,
}

impl Conf {
    /// The settings of a run that only serves the web UI: the settings of
    /// `default` with the web UI asked for.
    pub fn web_ui() -> (c: Conf)
        ensures
            c.web_ui,
            c.definitions@.len() == 0,
            c.subnets@.len() == 0,
            c.dataset@ == Seq::<char>::empty(),
            c.max_targets == 0,
            c.req_timeout == 10,
            c.max_concurrent_requests == 0,
            !c.debug,
            c.max_response_size == 10240,
            c.user_agent@ == Seq::<char>::empty(),
            c.db_conf.host@ == Seq::<char>::empty(),
            c.db_conf.port@ == Seq::<char>::empty(),
            c.db_conf.dbname@ == Seq::<char>::empty(),
            c.db_conf.user@ == Seq::<char>::empty(),
            c.db_conf.password@ == Seq::<char>::empty(),
    {
        let d = Conf::default();
        Conf { web_ui: true, ..d }
    }
}

/// What a run does.
#[derive(Clone, Copy, Debug, PartialEq, Eq, Structural)]
pub enum RunMode {
    /// Serve the web UI.
    WebUi,
    /// Scan targets.
    Scan,
}

/// Decides what a run does from its options: the web UI when asked for;
/// otherwise a scan, which needs a dataset or subnets.
pub fn run_mode(web_ui: bool, has_dataset: bool, has_subnet: bool) -> (r: Result<RunMode, &'static str>)
    ensures
        r == (if web_ui {
            Ok(RunMode::WebUi)
        } else if !has_dataset && !has_subnet {
            Err("One of --dataset/-D or --subnet/-S is required")
        } else {
            Ok(RunMode::Scan)
        }),
{
    if web_ui {
        return Ok(RunMode::WebUi);
    }
    if !has_dataset && !has_subnet {
        return Err("One of --dataset/-D or --subnet/-S is required");
    }
    Ok(RunMode::Scan)
}

/// The directory of the definition files.
pub open spec fn definitions_dir() -> Seq<char> {
    "resources/definitions/"@
}

/// Where a definition named on the command line may be, in the order they
/// are tried: `resources/definitions/<name>.json`,
/// `resources/definitions/<name>`, then `<name>` itself.
pub fn definition_candidates(name: &str) -> (r: Vec<String>)
    ensures
        r@.len() == 3,
        r@[0]@ == definitions_dir() + name@ + ".json"@,
        r@[1]@ == definitions_dir() + name@,
        r@[2]@ == name@,
{
    let mut a = owned("resources/definitions/");
    append(&mut a, name);
    append(&mut a, ".json");
    let mut b = owned("resources/definitions/");
    append(&mut b, name);
    let mut r: Vec<String> = Vec::new();
    r.push(a);
    r.push(b);
    r.push(owned(name));
    r
}

/// Which candidate a definition named on the command line is read from,
/// given whether each candidate exists (`exists[i]` for the `i`-th one): the
/// first that exists; `None` when none does.
pub fn first_existing(exists: &Vec<bool>) -> (r: Option<usize>)
    ensures
        r is None <==> forall|i: int| 0 <= i < exists@.len() ==> !exists@[i],
        r matches Some(i) ==> i < exists@.len() && exists@[i as int]
            && forall|j: int| 0 <= j < i ==> !exists@[j],
{
    let mut i: usize = 0;
    while i < exists.len()
        invariant
            i <= exists@.len(),
            forall|j: int| 0 <= j < i ==> !exists@[j],
        decreases exists@.len() - i,
    {
        if exists[i] {
            return Some(i);
        }
        i = i + 1;
    }
    None
}

/// `pat` occurs in `s` at `k`.
pub open spec fn occurs_at(s: Seq<char>, pat: Seq<char>, k: int) -> bool {
    0 <= k && k + pat.len() <= s.len() && s.subrange(k, k + pat.len()) == pat
}

/// Where `pat` first occurs in `s` at or after `k`.
pub open spec fn occurrence_from(s: Seq<char>, pat: Seq<char>, k: int) -> Option<int>
    decreases s.len() + 1 - k,
{
    if k < 0 || k + pat.len() > s.len() {
        None
    } else if occurs_at(s, pat, k) {
        Some(k)
    } else {
        occurrence_from(s, pat, k + 1)
    }
}

/// Where `pat` first occurs in `s` (`str::find`), counted in characters.
pub open spec fn first_occurrence(s: Seq<char>, pat: Seq<char>) -> Option<int> {
    occurrence_from(s, pat, 0)
}

/// An occurrence found is one.
pub proof fn lemma_occurrence_from(s: Seq<char>, pat: Seq<char>, k: int)
    ensures
        occurrence_from(s, pat, k) matches Some(j) ==> k <= j && occurs_at(s, pat, j)
            && forall|m: int| k <= m < j ==> !occurs_at(s, pat, m),
    decreases s.len() + 1 - k,
{
    if !(k < 0 || k + pat.len() > s.len()) && !occurs_at(s, pat, k) {
        lemma_occurrence_from(s, pat, k + 1);
    }
}

fn occurs_at_exec(s: &Vec<char>, pat: &Vec<char>, k: usize) -> (r: bool)
    requires
        k + pat@.len() <= s@.len(),
    ensures
        r == occurs_at(s@, pat@, k as int),
{
    let n = s.len();
    let mut i: usize = 0;
    while i < pat.len()
        invariant
            n == s@.len(),
            k + pat@.len() <= s@.len(),
            i <= pat@.len(),
            forall|m: int| 0 <= m < i ==> s@[k + m] == pat@[m],
        decreases pat@.len() - i,
    {
        if s[k + i] != pat[i] {
            assert(s@.subrange(k as int, k + pat@.len())[i as int] != pat@[i as int]);
            return false;
        }
        i = i + 1;
    }
    assert(s@.subrange(k as int, k + pat@.len()) =~= pat@);
    true
}

fn chars_of(s: &str) -> (v: Vec<char>)
    ensures
        v@ == s@,
{
    let n = s.unicode_len();
    let mut v: Vec<char> = Vec::new();
    let mut i: usize = 0;
    while i < n
        invariant
            n == s@.len(),
            i <= n,
            v@ == s@.take(i as int),
        decreases n - i,
    {
        v.push(s.get_char(i));
        i = i + 1;
        assert(v@ =~= s@.take(i as int));
    }
    assert(s@.take(n as int) =~= s@);
    v
}

/// Where `pat` first occurs in `s`, counted in characters; `None` where it
/// does not occur.
pub fn find_text(s: &str, pat: &str) -> (r: Option<usize>)
    ensures
        match r {
            Some(k) => first_occurrence(s@, pat@) == Some(k as int),
            None => first_occurrence(s@, pat@) is None,
        },
{
    let sv = chars_of(s);
    let pv = chars_of(pat);
    if pv.len() > sv.len() {
        return None;
    }
    let last = sv.len() - pv.len();
    let mut k: usize = 0;
    loop
        invariant
            sv@ == s@,
            pv@ == pat@,
            last + pv@.len() == sv@.len(),
            k <= last,
            occurrence_from(s@, pat@, 0) == occurrence_from(s@, pat@, k as int),
        decreases last - k,
    {
        if occurs_at_exec(&sv, &pv, k) {
            return Some(k);
        }
        if k == last {
            assert(occurrence_from(s@, pat@, k + 1) is None);
            return None;
        }
        k = k + 1;
    }
}

/// Whether a list of names holds `name`.
pub fn names_contain(names: &Vec<String>, name: &str) -> (r: bool)
    ensures
        r == exists|i: int| 0 <= i < names@.len() && (#[trigger] names@[i])@ == name@,
{
    let mut i: usize = 0;
    while i < names.len()
        invariant
            i <= names@.len(),
            forall|k: int| 0 <= k < i ==> (#[trigger] names@[k])@ != name@,
        decreases names@.len() - i,
    {
        if str_eq(names[i].as_str(), name) {
            assert(names@[i as int]@ == name@);
            return true;
        }
        i = i + 1;
    }
    false
}

/// Whether a list of names holds `name`.
pub open spec fn listed(names: Seq<String>, name: Seq<char>) -> bool {
    exists|i: int| 0 <= i < names.len() && (#[trigger] names[i])@ == name
}

/// The definition files chosen among the first `n` file names of the
/// definitions directory: each `.json` file, unless it is excluded by its
/// full name or by its name before `.json`; `None` when one of the names is
/// not a `.json` file.
pub open spec fn chosen_files(names: Seq<String>, excluded: Seq<String>, n: nat) -> Option<Seq<Seq<char>>>
    decreases n,
{
    if n == 0 {
        Some(Seq::empty())
    } else {
        match chosen_files(names, excluded, (n - 1) as nat) {
            None => None,
            Some(prev) => {
                let name = names[n - 1]@;
                match first_occurrence(name, ".json"@) {
                    None => None,
                    Some(k) => if !listed(excluded, name) && !listed(excluded, name.take(k)) {
                        Some(prev.push(definitions_dir() + name))
                    } else {
                        Some(prev)
                    },
                }
            },
        }
    }
}

/// Chooses the definition files when none is named on the command line:
/// every `.json` file of the definitions directory that is not excluded,
/// as `chosen_files` says. Refused when a file is not a `.json` file, or
/// when nothing is left.
pub fn select_definition_files(file_names: &Vec<String>, excluded: &Vec<String>) -> (r: Result<Vec<String>, &'static str>)
    ensures
        match r {
            Ok(v) => chosen_files(file_names@, excluded@, file_names@.len()) == Some(texts(v@))
                && v@.len() > 0,
            Err(e) => (chosen_files(file_names@, excluded@, file_names@.len()) is None
                && e@ == "Found extraneous files in resources/definitions (not .json)"@)
                || (chosen_files(file_names@, excluded@, file_names@.len()) == Some(Seq::<Seq<char>>::empty())
                && e@ == "No definition files found in resources/definitions"@),
        },
{
    let mut defs: Vec<String> = Vec::new();
    let mut i: usize = 0;
    while i < file_names.len()
        invariant
            i <= file_names@.len(),
            chosen_files(file_names@, excluded@, i as nat) == Some(texts(defs@)),
        decreases file_names@.len() - i,
    {
        let name = file_names[i].as_str();
        match find_text(name, ".json") {
            Some(idx) => {
                proof { lemma_occurrence_from(name@, ".json"@, 0); }
                let stem = name.substring_char(0, idx);
                assert(stem@ =~= name@.take(idx as int));
                if !names_contain(excluded, name) && !names_contain(excluded, stem) {
                    let mut path = owned("resources/definitions/");
                    append(&mut path, name);
                    let ghost before = defs@;
                    defs.push(path);
                    assert(texts(defs@) =~= texts(before).push(definitions_dir() + name@));
                }
            },
            None => {
                proof {
                    lemma_chosen_none(file_names@, excluded@, (i + 1) as nat, file_names@.len());
                }
                return Err("Found extraneous files in resources/definitions (not .json)");
            },
        }
        i = i + 1;
    }
    if defs.len() == 0 {
        assert(texts(defs@) =~= Seq::<Seq<char>>::empty());
        return Err("No definition files found in resources/definitions");
    }
    Ok(defs)
}

/// A list of strings as text.
pub open spec fn texts(v: Seq<String>) -> Seq<Seq<char>> {
    Seq::new(v.len(), |i: int| v[i]@)
}

proof fn lemma_chosen_none(names: Seq<String>, excluded: Seq<String>, a: nat, b: nat)
    requires
        a <= b,
        chosen_files(names, excluded, a) is None,
    ensures
        chosen_files(names, excluded, b) is None,
    decreases b - a,
{
    if a < b {
        lemma_chosen_none(names, excluded, (a + 1) as nat, b);
        assert(chosen_files(names, excluded, (a + 1) as nat) is None);
    }
}

} // verus!
