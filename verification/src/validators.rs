//! Validation of detection definitions.

use vstd::prelude::*;
use crate::conf::{Definition, Options, RegexVersion, Versions, SemverVersions, RangeVersion};
use crate::matching::{compile_regex, parse_version, parses_as_uri, regex_compiles, semver_parses, uri_parses};
use crate::text::{append, decimal, owned, str_eq, u128_to_decimal};

verus! {

/// Why a definition, or one of its fields, is refused.
#[derive(Clone, Copy, Debug, PartialEq, Eq, Structural)]
pub enum ValidationError {
    InvalidProtocol,
    InvalidMethod,
    InvalidPath,
    InvalidRegex,
    InvalidSemver,
    /// A `tcp/custom` definition without a payload.
    MissingTcpPayload,
    /// `method` or `path` given for `tcp/custom`.
    InvalidOptions,
    MissingMethod,
    MissingPath,
    /// A payload with a method that takes none.
    PayloadNotAllowed,
    /// No payload with a method that takes one.
    MissingBodyPayload,
}

impl ValidationError {
    /// The short code of the error.
    pub fn code(&self) -> (c: &'static str)
        ensures
            c@ == self.spec_code(),
    {
        match self {
            ValidationError::InvalidProtocol => "invalid_protocol",
            ValidationError::InvalidMethod => "invalid_method",
            ValidationError::InvalidPath => "invalid_path",
            ValidationError::InvalidRegex => "invalid_regex",
            ValidationError::InvalidSemver => "invalid_semver",
            ValidationError::MissingTcpPayload => "missing_payload",
            ValidationError::InvalidOptions => "invalid_options",
            ValidationError::MissingMethod => "missing_method",
            ValidationError::MissingPath => "missing_path",
            ValidationError::PayloadNotAllowed => "payload_not_allowed",
            ValidationError::MissingBodyPayload => "missing_payload",
        }
    }

    /// The short code of the error.
    pub open spec fn spec_code(&self) -> Seq<char> {
        match self {
            ValidationError::InvalidProtocol => "invalid_protocol"@,
            ValidationError::InvalidMethod => "invalid_method"@,
            ValidationError::InvalidPath => "invalid_path"@,
            ValidationError::InvalidRegex => "invalid_regex"@,
            ValidationError::InvalidSemver => "invalid_semver"@,
            ValidationError::MissingTcpPayload => "missing_payload"@,
            ValidationError::InvalidOptions => "invalid_options"@,
            ValidationError::MissingMethod => "missing_method"@,
            ValidationError::MissingPath => "missing_path"@,
            ValidationError::PayloadNotAllowed => "payload_not_allowed"@,
            ValidationError::MissingBodyPayload => "missing_payload"@,
        }
    }

    /// The message that explains the error.
    pub fn message(&self) -> (m: &'static str)
        ensures
            m@ == self.spec_message(),
    {
        match self {
            ValidationError::InvalidProtocol => "Invalid protocol. Available options: 'http/s', 'tcp/custom'",
            ValidationError::InvalidMethod => "Invalid HTTP method. Available options: 'GET', 'POST', 'PUT', 'DELETE', 'HEAD', 'OPTIONS', 'CONNECT', 'PATCH', 'TRACE'",
            ValidationError::InvalidPath => "Invalid path",
            ValidationError::InvalidRegex => "Invalid regex",
            ValidationError::InvalidSemver => "Invalid semver",
            ValidationError::MissingTcpPayload => "Missing mandatory option field 'payload' for protocol 'tcp/custom'",
            ValidationError::InvalidOptions => "Option fields 'method' and 'path' can't be used with protocol 'tcp/custom'",
            ValidationError::MissingMethod => "Missing mandatory option field 'method' for protocol 'http/s'",
            ValidationError::MissingPath => "Missing mandatory option field 'path' for protocol 'http/s'",
            ValidationError::PayloadNotAllowed => "Requests using HTTP methods: 'GET', 'HEAD', 'OPTIONS', 'CONNECT', 'TRACE' can't include a payload.",
            ValidationError::MissingBodyPayload => "Requests using HTTP methods: 'POST', 'PUT', 'DELETE', 'PATCH' should have a payload. To send an empty body, use \"payload\": \"\"",
        }
    }

    /// The message that explains the error.
    pub open spec fn spec_message(&self) -> Seq<char> {
        match self {
            ValidationError::InvalidProtocol => "Invalid protocol. Available options: 'http/s', 'tcp/custom'"@,
            ValidationError::InvalidMethod => "Invalid HTTP method. Available options: 'GET', 'POST', 'PUT', 'DELETE', 'HEAD', 'OPTIONS', 'CONNECT', 'PATCH', 'TRACE'"@,
            ValidationError::InvalidPath => "Invalid path"@,
            ValidationError::InvalidRegex => "Invalid regex"@,
            ValidationError::InvalidSemver => "Invalid semver"@,
            ValidationError::MissingTcpPayload => "Missing mandatory option field 'payload' for protocol 'tcp/custom'"@,
            ValidationError::InvalidOptions => "Option fields 'method' and 'path' can't be used with protocol 'tcp/custom'"@,
            ValidationError::MissingMethod => "Missing mandatory option field 'method' for protocol 'http/s'"@,
            ValidationError::MissingPath => "Missing mandatory option field 'path' for protocol 'http/s'"@,
            ValidationError::PayloadNotAllowed => "Requests using HTTP methods: 'GET', 'HEAD', 'OPTIONS', 'CONNECT', 'TRACE' can't include a payload."@,
            ValidationError::MissingBodyPayload => "Requests using HTTP methods: 'POST', 'PUT', 'DELETE', 'PATCH' should have a payload. To send an empty body, use \"payload\": \"\""@,
        }
    }
}

/// The protocols a definition may use.
pub open spec fn is_protocol(p: Seq<char>) -> bool {
    p == "http/s"@ || p == "tcp/custom"@
}

/// The HTTP methods a definition may use.
pub open spec fn is_method(m: Seq<char>) -> bool {
    ||| m == "GET"@
    ||| m == "POST"@
    ||| m == "PUT"@
    ||| m == "DELETE"@
    ||| m == "HEAD"@
    ||| m == "OPTIONS"@
    ||| m == "CONNECT"@
    ||| m == "PATCH"@
    ||| m == "TRACE"@
}

/// The methods that take no request body.
pub open spec fn is_bodyless_method(m: Seq<char>) -> bool {
    ||| m == "GET"@
    ||| m == "HEAD"@
    ||| m == "OPTIONS"@
    ||| m == "CONNECT"@
    ||| m == "TRACE"@
}

/// The methods that take a request body.
pub open spec fn is_body_method(m: Seq<char>) -> bool {
    ||| m == "POST"@
    ||| m == "PUT"@
    ||| m == "DELETE"@
    ||| m == "PATCH"@
}

/// Accepts `http/s` and `tcp/custom`.
pub fn validate_protocol(protocol: &str) -> (r: Result<(), ValidationError>)
    ensures
        r == (if is_protocol(protocol@) { Ok(()) } else { Err(ValidationError::InvalidProtocol) }),
{
    if str_eq(protocol, "http/s") || str_eq(protocol, "tcp/custom") {
        Ok(())
    } else {
        Err(ValidationError::InvalidProtocol)
    }
}

/// Accepts the nine HTTP methods.
pub fn validate_method(method: &str) -> (r: Result<(), ValidationError>)
    ensures
        r == (if is_method(method@) { Ok(()) } else { Err(ValidationError::InvalidMethod) }),
{
    if str_eq(method, "GET") || str_eq(method, "POST") || str_eq(method, "PUT") || str_eq(method, "DELETE")
        || str_eq(method, "HEAD") || str_eq(method, "OPTIONS") || str_eq(method, "CONNECT")
        || str_eq(method, "PATCH") || str_eq(method, "TRACE") {
        Ok(())
    } else {
        Err(ValidationError::InvalidMethod)
    }
}

/// Accepts what `http::Uri` parses.
pub fn validate_path(path: &str) -> (r: Result<(), ValidationError>)
    ensures
        r == (if uri_parses(path@) { Ok(()) } else { Err(ValidationError::InvalidPath) }),
{
    if parses_as_uri(path) {
        Ok(())
    } else {
        Err(ValidationError::InvalidPath)
    }
}

/// Accepts what `regex::Regex::new` compiles.
pub fn validate_regex(regex: &str) -> (r: Result<(), ValidationError>)
    ensures
        r == (if regex_compiles(regex@) { Ok(()) } else { Err(ValidationError::InvalidRegex) }),
{
    match compile_regex(regex) {
        Some(_) => Ok(()),
        None => Err(ValidationError::InvalidRegex),
    }
}

/// Whether every pattern of the list compiles.
pub open spec fn all_regexes_compile(rv: Seq<RegexVersion>) -> bool {
    forall|i: int| 0 <= i < rv.len() ==> #[trigger] regex_compiles(rv[i].regex@)
}

/// Accepts a list of version patterns when every pattern compiles.
pub fn validate_regex_ver(rv: &Vec<RegexVersion>) -> (r: Result<(), ValidationError>)
    ensures
        r == (if all_regexes_compile(rv@) { Ok(()) } else { Err(ValidationError::InvalidRegex) }),
{
    let mut i: usize = 0;
    while i < rv.len()
        invariant
            i <= rv@.len(),
            forall|j: int| 0 <= j < i ==> #[trigger] regex_compiles(rv@[j].regex@),
        decreases rv@.len() - i,
    {
        let res = validate_regex(rv[i].regex.as_str());
        if res.is_err() {
            return Err(ValidationError::InvalidRegex);
        }
        i = i + 1;
    }
    Ok(())
}

/// Accepts what `semver::Version::parse` parses.
pub fn validate_semver(semver: &str) -> (r: Result<(), ValidationError>)
    ensures
        r == (if semver_parses(semver@) { Ok(()) } else { Err(ValidationError::InvalidSemver) }),
{
    match parse_version(semver) {
        Some(_) => Ok(()),
        None => Err(ValidationError::InvalidSemver),
    }
}

/// The rules that tie a definition's options to its protocol, in the order
/// they are checked; `Ok` when none is broken.
pub open spec fn spec_validate_definition(def: Definition) -> Result<(), ValidationError> {
    let o = def.options;
    if def.protocol@ == "tcp/custom"@ && o.payload is None {
        Err(ValidationError::MissingTcpPayload)
    } else if def.protocol@ == "tcp/custom"@ && (o.method is Some || o.path is Some) {
        Err(ValidationError::InvalidOptions)
    } else if def.protocol@ == "http/s"@ && o.method is None {
        Err(ValidationError::MissingMethod)
    } else if def.protocol@ == "http/s"@ && o.path is None {
        Err(ValidationError::MissingPath)
    } else if def.protocol@ == "http/s"@ && o.payload is Some && is_bodyless_method(o.method->0@) {
        Err(ValidationError::PayloadNotAllowed)
    } else if def.protocol@ == "http/s"@ && o.payload is None && is_body_method(o.method->0@) {
        Err(ValidationError::MissingBodyPayload)
    } else {
        Ok(())
    }
}

/// Checks that a definition's options fit its protocol: `tcp/custom` needs
/// a payload and no method or path; `http/s` needs a method and a path, and
/// a payload exactly with the methods that take a body.
pub fn validate_definition(def: &Definition) -> (r: Result<(), ValidationError>)
    ensures
        r == spec_validate_definition(*def),
{
    let o = &def.options;
    if str_eq(def.protocol.as_str(), "tcp/custom") {
        if o.payload.is_none() {
            return Err(ValidationError::MissingTcpPayload);
        }
        if o.method.is_some() || o.path.is_some() {
            return Err(ValidationError::InvalidOptions);
        }
    }
    if str_eq(def.protocol.as_str(), "http/s") {
        let method = match &o.method {
            None => { return Err(ValidationError::MissingMethod); },
            Some(m) => m.as_str(),
        };
        if o.path.is_none() {
            return Err(ValidationError::MissingPath);
        }
        if o.payload.is_some() && (str_eq(method, "GET") || str_eq(method, "HEAD")
            || str_eq(method, "OPTIONS") || str_eq(method, "CONNECT") || str_eq(method, "TRACE")) {
            return Err(ValidationError::PayloadNotAllowed);
        }
        if o.payload.is_none() && (str_eq(method, "POST") || str_eq(method, "PUT")
            || str_eq(method, "DELETE") || str_eq(method, "PATCH")) {
            return Err(ValidationError::MissingBodyPayload);
        }
    }
    Ok(())
}

/// What the rules that tie options to protocol decide for a well-formed
/// `http/s` definition (with a method and a path): a payload is refused
/// with `GET`, `HEAD`, `OPTIONS`, `CONNECT` and `TRACE`; a missing payload is
/// refused with `POST`, `PUT`, `DELETE` and `PATCH`; anything else passes.
/// A `tcp/custom` definition needs a payload and no method or path.
pub proof fn lemma_payload_rules(def: Definition)
    ensures
        ({
            let o = def.options;
            let m = o.method->0@;
            let bodyless = m == "GET"@ || m == "HEAD"@ || m == "OPTIONS"@ || m == "CONNECT"@ || m == "TRACE"@;
            let body = m == "POST"@ || m == "PUT"@ || m == "DELETE"@ || m == "PATCH"@;
            &&& def.protocol@ == "http/s"@ && o.method is Some && o.path is Some && o.payload is Some && bodyless
                ==> spec_validate_definition(def) == Err::<(), ValidationError>(ValidationError::PayloadNotAllowed)
            &&& def.protocol@ == "http/s"@ && o.method is Some && o.path is Some && o.payload is None && body
                ==> spec_validate_definition(def) == Err::<(), ValidationError>(ValidationError::MissingBodyPayload)
            &&& def.protocol@ == "http/s"@ && o.method is Some && o.path is Some
                && (o.payload is Some ==> !bodyless) && (o.payload is None ==> !body)
                ==> spec_validate_definition(def) == Ok::<(), ValidationError>(())
            &&& def.protocol@ == "tcp/custom"@ ==> (spec_validate_definition(def) is Ok
                <==> (o.payload is Some && o.method is None && o.path is None))
            &&& def.protocol@ != "http/s"@ && def.protocol@ != "tcp/custom"@ ==> spec_validate_definition(def) is Ok
        }),
{
    reveal_strlit("http/s");
    reveal_strlit("tcp/custom");
    assert("http/s"@.len() != "tcp/custom"@.len());
}

/// What validation refuses in a definition's fields: a protocol other than
/// `http/s` and `tcp/custom`, a service pattern that does not compile, and
/// a semantic version pattern that does not compile each bring their error;
/// and a definition that passes has a known protocol, patterns that compile
/// and version range bounds that parse.
pub proof fn lemma_field_checks(def: Definition)
    ensures
        def.protocol@ != "http/s"@ && def.protocol@ != "tcp/custom"@
            ==> spec_validate(def) is Err && spec_validate(def)->Err_0.contains(ValidationError::InvalidProtocol),
        !regex_compiles(def.service.regex@)
            ==> spec_validate(def) is Err && spec_validate(def)->Err_0.contains(ValidationError::InvalidRegex),
        def.versions is Some && def.versions->0.semver is Some && !regex_compiles(def.versions->0.semver->0.regex@)
            ==> spec_validate(def) is Err && spec_validate(def)->Err_0.contains(ValidationError::InvalidRegex),
        spec_validate(def) is Ok ==> def.protocol@ == "http/s"@ || def.protocol@ == "tcp/custom"@,
        spec_validate(def) is Ok ==> regex_compiles(def.service.regex@),
        spec_validate(def) is Ok && def.versions is Some && def.versions->0.semver is Some
            ==> regex_compiles(def.versions->0.semver->0.regex@),
        spec_validate(def) is Ok && def.versions is Some && def.versions->0.regex is Some
            ==> forall|i: int| 0 <= i < def.versions->0.regex->0@.len()
                ==> regex_compiles(#[trigger] def.versions->0.regex->0@[i].regex@),
{
    let e1 = error_if(!is_protocol(def.protocol@), ValidationError::InvalidProtocol);
    let e2 = error_if(!regex_compiles(def.service.regex@), ValidationError::InvalidRegex);
    let ve = match def.versions {
        Some(v) => versions_errors(v),
        None => Seq::empty(),
    };
    let fe = field_errors(def);
    assert(fe == e1 + e2 + ve);
    assert(spec_validate(def) is Ok ==> fe.len() == 0);
    if !is_protocol(def.protocol@) {
        assert(fe[0] == ValidationError::InvalidProtocol);
    }
    if !regex_compiles(def.service.regex@) {
        assert(fe[e1.len() as int] == ValidationError::InvalidRegex);
    }
    match def.versions {
        Some(v) => {
            match v.semver {
                Some(sv) => {
                    let se = semver_errors(sv);
                    let re = match v.regex {
                        Some(rv) => error_if(!all_regexes_compile(rv@), ValidationError::InvalidRegex),
                        None => Seq::empty(),
                    };
                    assert(ve == se + re);
                    assert(ve.len() == se.len() + re.len());
                    assert(fe.len() == e1.len() + e2.len() + ve.len());
                    if !regex_compiles(sv.regex@) {
                        assert(se[0] == ValidationError::InvalidRegex);
                        assert(fe[(e1.len() + e2.len()) as int] == ValidationError::InvalidRegex);
                    }
                    if fe.len() == 0 {
                        let rest = range_errors(sv.ranges@, sv.ranges@.len());
                        let first = error_if(!regex_compiles(sv.regex@), ValidationError::InvalidRegex);
                        assert(se == first + rest);
                        assert(se.len() == first.len() + rest.len());
                        assert(ve.len() == 0);
                        assert(se.len() == 0);
                        assert(rest.len() == 0);
                        lemma_range_errors_empty(sv.ranges@, sv.ranges@.len());
                        assert(re.len() == 0);
                        match v.regex {
                            Some(rv) => { assert(all_regexes_compile(rv@)); },
                            None => {},
                        }
                    }
                },
                None => {
                    match v.regex {
                        Some(rv) => {
                            assert(ve == Seq::<ValidationError>::empty() + error_if(!all_regexes_compile(rv@), ValidationError::InvalidRegex));
                            assert(fe.len() == e1.len() + e2.len() + ve.len());
                            if fe.len() == 0 {
                                assert(all_regexes_compile(rv@));
                            }
                        },
                        None => {},
                    }
                },
            }
        },
        None => {},
    }
}

/// The bounds of every version range of a definition that passes
/// validation parse as semantic versions.
pub proof fn lemma_validated_ranges_parse(def: Definition, sv: SemverVersions)
    requires
        spec_validate(def) is Ok,
        def.versions is Some,
        def.versions->0.semver == Some(sv),
    ensures
        forall|i: int| 0 <= i < sv.ranges@.len()
            ==> semver_parses(#[trigger] sv.ranges@[i].from@) && semver_parses(sv.ranges@[i].to@),
{
    let v = def.versions->0;
    let fe = field_errors(def);
    let e1 = error_if(!is_protocol(def.protocol@), ValidationError::InvalidProtocol);
    let e2 = error_if(!regex_compiles(def.service.regex@), ValidationError::InvalidRegex);
    let ve = versions_errors(v);
    assert(fe == e1 + e2 + ve);
    assert(fe.len() == 0);
    let se = semver_errors(sv);
    let re = match v.regex {
        Some(rv) => error_if(!all_regexes_compile(rv@), ValidationError::InvalidRegex),
        None => Seq::empty(),
    };
    assert(ve == se + re);
    let first = error_if(!regex_compiles(sv.regex@), ValidationError::InvalidRegex);
    let rest = range_errors(sv.ranges@, sv.ranges@.len());
    assert(se == first + rest);
    assert(rest.len() == 0);
    lemma_range_errors_empty(sv.ranges@, sv.ranges@.len());
}

/// `[e]` when `fails`, else nothing.
pub open spec fn error_if(fails: bool, e: ValidationError) -> Seq<ValidationError> {
    if fails { seq![e] } else { Seq::empty() }
}

/// The errors of the first `n` version ranges: for each, `from` then `to`.
pub open spec fn range_errors(ranges: Seq<RangeVersion>, n: nat) -> Seq<ValidationError>
    decreases n,
{
    if n == 0 {
        Seq::empty()
    } else {
        range_errors(ranges, (n - 1) as nat)
            + error_if(!semver_parses(ranges[n - 1].from@), ValidationError::InvalidSemver)
            + error_if(!semver_parses(ranges[n - 1].to@), ValidationError::InvalidSemver)
    }
}

/// The errors of a semantic version rule: its pattern, then its ranges.
pub open spec fn semver_errors(sv: SemverVersions) -> Seq<ValidationError> {
    error_if(!regex_compiles(sv.regex@), ValidationError::InvalidRegex)
        + range_errors(sv.ranges@, sv.ranges@.len())
}

/// The errors of the version rules: the semantic version rule, then the
/// list of version patterns (one error for the whole list).
pub open spec fn versions_errors(v: Versions) -> Seq<ValidationError> {
    (match v.semver {
        Some(sv) => semver_errors(sv),
        None => Seq::empty(),
    }) + (match v.regex {
        Some(rv) => error_if(!all_regexes_compile(rv@), ValidationError::InvalidRegex),
        None => Seq::empty(),
    })
}

/// The errors of a definition's fields, in order: protocol, service
/// pattern, version rules. The options are not among them.
pub open spec fn field_errors(def: Definition) -> Seq<ValidationError> {
    error_if(!is_protocol(def.protocol@), ValidationError::InvalidProtocol)
        + error_if(!regex_compiles(def.service.regex@), ValidationError::InvalidRegex)
        + (match def.versions {
        Some(v) => versions_errors(v),
        None => Seq::empty(),
    })
}

/// The outcome of validating a definition: the errors of its fields if there
/// are any, else the error of the rules that tie options to protocol.
pub open spec fn spec_validate(def: Definition) -> Result<(), Seq<ValidationError>> {
    if field_errors(def).len() > 0 {
        Err(field_errors(def))
    } else {
        match spec_validate_definition(def) {
            Ok(()) => Ok(()),
            Err(e) => Err(seq![e]),
        }
    }
}

/// The errors of the options: method, then path.
pub open spec fn options_errors(o: Options) -> Seq<ValidationError> {
    (match o.method {
        Some(m) => error_if(!is_method(m@), ValidationError::InvalidMethod),
        None => Seq::empty(),
    }) + (match o.path {
        Some(p) => error_if(!uri_parses(p@), ValidationError::InvalidPath),
        None => Seq::empty(),
    })
}

/// An error and the path of the field it is about: `protocol`,
/// `service.regex`, `versions.semver.ranges[0].from` and the like, or
/// `__all__` for an error of the whole definition.
pub struct FieldError {
    pub path: String,
    pub error: ValidationError,
}

/// The errors of a list, in order.
pub open spec fn errors_of(es: Seq<FieldError>) -> Seq<ValidationError> {
    Seq::new(es.len(), |i: int| es[i].error)
}

/// The paths of a list of errors, in order.
pub open spec fn paths_of(es: Seq<FieldError>) -> Seq<Seq<char>> {
    Seq::new(es.len(), |i: int| es[i].path@)
}

/// `[path]` when `fails`, else nothing.
pub open spec fn path_if(fails: bool, path: Seq<char>) -> Seq<Seq<char>> {
    if fails { seq![path] } else { Seq::empty() }
}

/// The path of a bound (`from` or `to`) of the version range at `i`.
pub open spec fn range_path(i: nat, bound: Seq<char>) -> Seq<char> {
    "versions.semver.ranges["@ + decimal(i) + "]."@ + bound
}

/// The paths of the errors of the first `n` version ranges.
pub open spec fn range_paths(ranges: Seq<RangeVersion>, n: nat) -> Seq<Seq<char>>
    decreases n,
{
    if n == 0 {
        Seq::empty()
    } else {
        range_paths(ranges, (n - 1) as nat)
            + path_if(!semver_parses(ranges[n - 1].from@), range_path((n - 1) as nat, "from"@))
            + path_if(!semver_parses(ranges[n - 1].to@), range_path((n - 1) as nat, "to"@))
    }
}

/// The paths of the errors of the version rules.
pub open spec fn versions_paths(v: Versions) -> Seq<Seq<char>> {
    (match v.semver {
        Some(sv) => path_if(!regex_compiles(sv.regex@), "versions.semver.regex"@)
            + range_paths(sv.ranges@, sv.ranges@.len()),
        None => Seq::empty(),
    }) + (match v.regex {
        Some(rv) => path_if(!all_regexes_compile(rv@), "versions.regex"@),
        None => Seq::empty(),
    })
}

/// The paths of the errors of a definition's fields, in the order of
/// `field_errors`.
pub open spec fn field_paths(def: Definition) -> Seq<Seq<char>> {
    path_if(!is_protocol(def.protocol@), "protocol"@)
        + path_if(!regex_compiles(def.service.regex@), "service.regex"@)
        + (match def.versions {
        Some(v) => versions_paths(v),
        None => Seq::empty(),
    })
}

/// The paths of the errors of a refused definition: those of its fields,
/// or `__all__` for the error of the rules that tie options to protocol.
pub open spec fn error_paths(def: Definition) -> Seq<Seq<char>> {
    if field_errors(def).len() > 0 {
        field_paths(def)
    } else {
        seq!["__all__"@]
    }
}

/// The paths of the errors of the options: `method`, then `path`.
pub open spec fn options_paths(o: Options) -> Seq<Seq<char>> {
    (match o.method {
        Some(m) => path_if(!is_method(m@), "method"@),
        None => Seq::empty(),
    }) + (match o.path {
        Some(p) => path_if(!uri_parses(p@), "path"@),
        None => Seq::empty(),
    })
}

fn push_if_err(errors: &mut Vec<FieldError>, path: &str, r: Result<(), ValidationError>)
    ensures
        errors_of(final(errors)@) == errors_of(old(errors)@) + (match r {
            Ok(()) => Seq::<ValidationError>::empty(),
            Err(e) => seq![e],
        }),
        paths_of(final(errors)@) == paths_of(old(errors)@) + (match r {
            Ok(()) => Seq::<Seq<char>>::empty(),
            Err(e) => seq![path@],
        }),
{
    match r {
        Ok(()) => {
            assert(errors_of(errors@) =~= errors_of(errors@) + Seq::<ValidationError>::empty());
            assert(paths_of(errors@) =~= paths_of(errors@) + Seq::<Seq<char>>::empty());
        },
        Err(e) => {
            let ghost before = errors@;
            errors.push(FieldError { path: owned(path), error: e });
            assert(errors_of(errors@) =~= errors_of(before) + seq![e]);
            assert(paths_of(errors@) =~= paths_of(before) + seq![path@]);
        },
    }
}

impl Options {
    /// Checks the method and the path, where given.
    pub fn validate(&self) -> (r: Result<(), Vec<FieldError>>)
        ensures
            match r {
                Ok(()) => options_errors(*self).len() == 0,
                Err(es) => errors_of(es@) == options_errors(*self) && paths_of(es@) == options_paths(*self)
                    && es@.len() > 0,
            },
    {
        let mut errors: Vec<FieldError> = Vec::new();
        assert(errors_of(errors@) =~= Seq::<ValidationError>::empty());
        assert(paths_of(errors@) =~= Seq::<Seq<char>>::empty());
        match &self.method {
            Some(m) => push_if_err(&mut errors, "method", validate_method(m.as_str())),
            None => {},
        }
        match &self.path {
            Some(p) => push_if_err(&mut errors, "path", validate_path(p.as_str())),
            None => {},
        }
        assert(errors_of(errors@) =~= options_errors(*self));
        assert(paths_of(errors@) =~= options_paths(*self));
        if errors.len() == 0 {
            Ok(())
        } else {
            Err(errors)
        }
    }
}

fn range_path_text(i: usize, bound: &str) -> (t: String)
    ensures
        t@ == range_path(i as nat, bound@),
{
    let mut t = owned("versions.semver.ranges[");
    let d = u128_to_decimal(i as u128);
    append(&mut t, d.as_str());
    append(&mut t, "].");
    append(&mut t, bound);
    t
}

fn range_errors_into(ranges: &Vec<RangeVersion>, errors: &mut Vec<FieldError>)
    ensures
        errors_of(final(errors)@) == errors_of(old(errors)@) + range_errors(ranges@, ranges@.len()),
        paths_of(final(errors)@) == paths_of(old(errors)@) + range_paths(ranges@, ranges@.len()),
{
    let ghost start = errors_of(errors@);
    let ghost start_paths = paths_of(errors@);
    let mut i: usize = 0;
    while i < ranges.len()
        invariant
            i <= ranges@.len(),
            errors_of(errors@) == start + range_errors(ranges@, i as nat),
            paths_of(errors@) == start_paths + range_paths(ranges@, i as nat),
        decreases ranges@.len() - i,
    {
        let from_path = range_path_text(i, "from");
        push_if_err(errors, from_path.as_str(), validate_semver(ranges[i].from.as_str()));
        let to_path = range_path_text(i, "to");
        push_if_err(errors, to_path.as_str(), validate_semver(ranges[i].to.as_str()));
        i = i + 1;
        assert(errors_of(errors@) =~= start + range_errors(ranges@, i as nat));
        assert(paths_of(errors@) =~= start_paths + range_paths(ranges@, i as nat));
    }
}

impl Definition {
    /// Checks a definition: first its fields (protocol, service pattern,
    /// version patterns and version ranges), all errors at once, each with
    /// the path of its field; where they pass, the rules that tie options to
    /// protocol, whose error is about the whole definition (`__all__`). The
    /// options' own method and path are not checked here.
    #[verifier::spinoff_prover]
    #[verifier::rlimit(40)]
    pub fn validate(&self) -> (r: Result<(), Vec<FieldError>>)
        ensures
            match (r, spec_validate(*self)) {
                (Ok(()), Ok(())) => true,
                (Err(es), Err(ss)) => errors_of(es@) == ss && paths_of(es@) == error_paths(*self),
                _ => false,
            },
    {
        let mut errors: Vec<FieldError> = Vec::new();
        assert(errors_of(errors@) =~= Seq::<ValidationError>::empty());
        assert(paths_of(errors@) =~= Seq::<Seq<char>>::empty());
        push_if_err(&mut errors, "protocol", validate_protocol(self.protocol.as_str()));
        push_if_err(&mut errors, "service.regex", validate_regex(self.service.regex.as_str()));
        let ghost before_versions = errors_of(errors@);
        let ghost before_paths = paths_of(errors@);
        match &self.versions {
            Some(v) => {
                match &v.semver {
                    Some(sv) => {
                        push_if_err(&mut errors, "versions.semver.regex", validate_regex(sv.regex.as_str()));
                        range_errors_into(&sv.ranges, &mut errors);
                    },
                    None => {},
                }
                match &v.regex {
                    Some(rv) => push_if_err(&mut errors, "versions.regex", validate_regex_ver(rv)),
                    None => {},
                }
                assert(errors_of(errors@) =~= before_versions + versions_errors(*v));
                assert(paths_of(errors@) =~= before_paths + versions_paths(*v));
            },
            None => {},
        }
        assert(errors_of(errors@) =~= field_errors(*self));
        assert(paths_of(errors@) =~= field_paths(*self));
        if errors.len() > 0 {
            return Err(errors);
        }
        match validate_definition(self) {
            Ok(()) => Ok(()),
            Err(e) => {
                let mut es: Vec<FieldError> = Vec::new();
                es.push(FieldError { path: owned("__all__"), error: e });
                assert(errors_of(es@) =~= seq![e]);
                assert(paths_of(es@) =~= seq!["__all__"@]);
                Err(es)
            },
        }
    }
}

/// How a list of errors is shown: each as `"<path>: <message>"`, one per
/// line, `paths[i]` being the path of `es[i]`.
pub open spec fn errors_text(paths: Seq<Seq<char>>, es: Seq<ValidationError>) -> Seq<char>
    decreases es.len(),
{
    if es.len() == 0 {
        Seq::empty()
    } else if es.len() == 1 {
        paths[0] + ": "@ + es[0].spec_message()
    } else {
        errors_text(paths, es.drop_last()) + "\n"@ + paths[es.len() - 1] + ": "@ + es.last().spec_message()
    }
}

/// Shows a list of errors as `errors_text` says.
pub fn format_errors(es: &Vec<FieldError>) -> (t: String)
    ensures
        t@ == errors_text(paths_of(es@), errors_of(es@)),
{
    let ghost paths = paths_of(es@);
    let ghost errs = errors_of(es@);
    let mut t = String::new();
    let mut i: usize = 0;
    while i < es.len()
        invariant
            i <= es@.len(),
            paths == paths_of(es@),
            errs == errors_of(es@),
            t@ == errors_text(paths, errs.take(i as int)),
        decreases es@.len() - i,
    {
        assert(errs.take(i + 1).drop_last() =~= errs.take(i as int));
        assert(errs.take(i + 1).last() == es@[i as int].error);
        assert(paths[i as int] == es@[i as int].path@);
        if i > 0 {
            append(&mut t, "\n");
        } else {
            assert(t@ =~= Seq::<char>::empty());
        }
        append(&mut t, es[i].path.as_str());
        append(&mut t, ": ");
        append(&mut t, es[i].error.message());
        i = i + 1;
    }
    assert(errs.take(es@.len() as int) =~= errs);
    t
}

/// The message for a definition refused by validation.
pub open spec fn invalid_definition_text(name: Seq<char>, path: Seq<char>, paths: Seq<Seq<char>>, es: Seq<ValidationError>) -> Seq<char> {
    "Invalid definition: "@ + name + " ("@ + path + ")\nError: "@ + errors_text(paths, es)
}

/// The message for a definition refused by validation; `None` where it
/// passes.
pub open spec fn refusal_text(def: Definition, path: Seq<char>) -> Option<Seq<char>> {
    match spec_validate(def) {
        Ok(()) => None,
        Err(es) => Some(invalid_definition_text(def.name@, path, error_paths(def), es)),
    }
}

/// Validates the definitions read from one file, in order; at the first
/// that is refused, the message that names it, its file and its errors.
pub fn check_definitions(path: &str, defs: &[Definition]) -> (r: Result<(), String>)
    ensures
        match r {
            Ok(()) => forall|i: int| 0 <= i < defs@.len() ==> spec_validate(#[trigger] defs@[i]) is Ok,
            Err(m) => exists|i: int| 0 <= i < defs@.len()
                && (forall|k: int| 0 <= k < i ==> spec_validate(#[trigger] defs@[k]) is Ok)
                && refusal_text(#[trigger] defs@[i], path@) == Some(m@),
        },
{
    let mut i: usize = 0;
    while i < defs.len()
        invariant
            i <= defs@.len(),
            forall|k: int| 0 <= k < i ==> spec_validate(#[trigger] defs@[k]) is Ok,
        decreases defs@.len() - i,
    {
        match defs[i].validate() {
            Ok(()) => {},
            Err(es) => {
                let mut m = owned("Invalid definition: ");
                append(&mut m, defs[i].name.as_str());
                append(&mut m, " (");
                append(&mut m, path);
                append(&mut m, ")\nError: ");
                let t = format_errors(&es);
                append(&mut m, t.as_str());
                assert(refusal_text(defs@[i as int], path@) == Some(m@));
                return Err(m);
            },
        }
        i = i + 1;
    }
    Ok(())
}

/// Version ranges without errors have bounds that parse.
pub proof fn lemma_range_errors_empty(ranges: Seq<RangeVersion>, n: nat)
    requires
        n <= ranges.len(),
        range_errors(ranges, n).len() == 0,
    ensures
        forall|i: int| 0 <= i < n ==> semver_parses(#[trigger] ranges[i].from@) && semver_parses(ranges[i].to@),
    decreases n,
{
    if n > 0 {
        let prev = range_errors(ranges, (n - 1) as nat);
        let a = error_if(!semver_parses(ranges[n - 1].from@), ValidationError::InvalidSemver);
        let b = error_if(!semver_parses(ranges[n - 1].to@), ValidationError::InvalidSemver);
        assert((prev + a + b).len() == prev.len() + a.len() + b.len());
        lemma_range_errors_empty(ranges, (n - 1) as nat);
    }
}

} // verus!
