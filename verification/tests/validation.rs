use lachesis::conf::{Definition, Options, RangeVersion, RegexVersion, SemverVersions, Service, Versions};
use lachesis::validators::{
    check_definitions, format_errors, validate_definition, validate_method, validate_path, validate_protocol,
    validate_regex, validate_regex_ver, validate_semver, FieldError, ValidationError,
};

fn pairs(r: Result<(), Vec<FieldError>>) -> Result<(), Vec<(String, ValidationError)>> {
    r.map_err(|es| es.into_iter().map(|e| (e.path, e.error)).collect())
}

fn field_error(path: &str, error: ValidationError) -> FieldError {
    FieldError { path: path.to_string(), error }
}

fn def(protocol: &str, method: Option<&str>, path: Option<&str>, payload: Option<&str>) -> Definition {
    Definition {
        name: "svc".to_string(),
        protocol: protocol.to_string(),
        options: Options {
            method: method.map(|s| s.to_string()),
            path: path.map(|s| s.to_string()),
            headers: None,
            ports: vec![80],
            timeout: None,
            payload: payload.map(|s| s.to_string()),
        },
        service: Service { regex: "svc".to_string(), log: true },
        versions: None,
    }
}

#[test]
fn protocols() {
    assert_eq!(validate_protocol("http/s"), Ok(()));
    assert_eq!(validate_protocol("tcp/custom"), Ok(()));
    assert_eq!(validate_protocol("http"), Err(ValidationError::InvalidProtocol));
    assert_eq!(validate_protocol(""), Err(ValidationError::InvalidProtocol));
}

#[test]
fn methods() {
    for m in ["GET", "POST", "PUT", "DELETE", "HEAD", "OPTIONS", "CONNECT", "PATCH", "TRACE"] {
        assert_eq!(validate_method(m), Ok(()));
    }
    assert_eq!(validate_method("get"), Err(ValidationError::InvalidMethod));
    assert_eq!(validate_method("FETCH"), Err(ValidationError::InvalidMethod));
}

#[test]
fn paths_regexes_semvers() {
    assert_eq!(validate_path("/index.html"), Ok(()));
    assert_eq!(validate_path("/a b"), Err(ValidationError::InvalidPath));
    assert_eq!(validate_regex("Apache/(?P<version>[0-9.]+)"), Ok(()));
    assert_eq!(validate_regex("foo(bar"), Err(ValidationError::InvalidRegex));
    assert_eq!(validate_semver("1.2.3"), Ok(()));
    assert_eq!(validate_semver("1.2"), Err(ValidationError::InvalidSemver));
    assert_eq!(validate_semver("1.0.01"), Err(ValidationError::InvalidSemver));
    let good = RegexVersion { regex: "a".to_string(), version: "1".to_string(), description: "d".to_string() };
    let bad = RegexVersion { regex: "(".to_string(), version: "1".to_string(), description: "d".to_string() };
    assert_eq!(validate_regex_ver(&vec![]), Ok(()));
    assert_eq!(validate_regex_ver(&vec![good.clone_like()]), Ok(()));
    assert_eq!(validate_regex_ver(&vec![good, bad]), Err(ValidationError::InvalidRegex));
}

trait CloneLike {
    fn clone_like(&self) -> Self;
}

impl CloneLike for RegexVersion {
    fn clone_like(&self) -> Self {
        RegexVersion { regex: self.regex.clone(), version: self.version.clone(), description: self.description.clone() }
    }
}

#[test]
fn definition_rules() {
    assert_eq!(validate_definition(&def("tcp/custom", None, None, None)), Err(ValidationError::MissingTcpPayload));
    assert_eq!(validate_definition(&def("tcp/custom", Some("GET"), None, Some("x"))), Err(ValidationError::InvalidOptions));
    assert_eq!(validate_definition(&def("tcp/custom", None, Some("/"), Some("x"))), Err(ValidationError::InvalidOptions));
    assert_eq!(validate_definition(&def("tcp/custom", None, None, Some("PING\r\n"))), Ok(()));
    assert_eq!(validate_definition(&def("http/s", None, Some("/"), None)), Err(ValidationError::MissingMethod));
    assert_eq!(validate_definition(&def("http/s", Some("GET"), None, None)), Err(ValidationError::MissingPath));
    assert_eq!(validate_definition(&def("http/s", Some("HEAD"), Some("/"), Some(""))), Err(ValidationError::PayloadNotAllowed));
    assert_eq!(validate_definition(&def("http/s", Some("POST"), Some("/"), None)), Err(ValidationError::MissingBodyPayload));
    assert_eq!(validate_definition(&def("http/s", Some("POST"), Some("/"), Some(""))), Ok(()));
    assert_eq!(validate_definition(&def("http/s", Some("GET"), Some("/"), None)), Ok(()));
    assert_eq!(validate_definition(&def("ftp", None, None, None)), Ok(()));
}

#[test]
fn codes_and_messages() {
    assert_eq!(ValidationError::MissingTcpPayload.code(), "missing_payload");
    assert_eq!(ValidationError::MissingBodyPayload.code(), "missing_payload");
    assert_eq!(ValidationError::InvalidRegex.message(), "Invalid regex");
    assert_eq!(
        ValidationError::InvalidProtocol.message(),
        "Invalid protocol. Available options: 'http/s', 'tcp/custom'"
    );
    assert_eq!(format_errors(&vec![]), "");
    assert_eq!(
        format_errors(&vec![
            field_error("path", ValidationError::InvalidPath),
            field_error("versions.semver.ranges[0].from", ValidationError::InvalidSemver),
        ]),
        "path: Invalid path\nversions.semver.ranges[0].from: Invalid semver"
    );
}

#[test]
fn field_errors_come_before_rules() {
    let mut d = def("smtp", None, None, None);
    d.service.regex = "(".to_string();
    d.versions = Some(Versions {
        semver: Some(SemverVersions {
            regex: "(?P<version>.*)".to_string(),
            ranges: vec![RangeVersion { from: "1.0".to_string(), to: "2.0.0".to_string(), description: String::new() }],
        }),
        regex: None,
    });
    assert_eq!(
        pairs(d.validate()),
        Err(vec![
            ("protocol".to_string(), ValidationError::InvalidProtocol),
            ("service.regex".to_string(), ValidationError::InvalidRegex),
            ("versions.semver.ranges[0].from".to_string(), ValidationError::InvalidSemver),
        ])
    );
    let rules_only = def("tcp/custom", None, None, None);
    assert_eq!(pairs(rules_only.validate()), Err(vec![("__all__".to_string(), ValidationError::MissingTcpPayload)]));
    assert_eq!(pairs(def("http/s", Some("GET"), Some("/"), None).validate()), Ok(()));
}

#[test]
fn options_checks() {
    let o = def("http/s", Some("FETCH"), Some("/a b"), None).options;
    assert_eq!(
        pairs(o.validate()),
        Err(vec![("method".to_string(), ValidationError::InvalidMethod), ("path".to_string(), ValidationError::InvalidPath)])
    );
    assert_eq!(pairs(def("http/s", Some("GET"), Some("/"), None).options.validate()), Ok(()));
}

#[test]
fn definitions_of_a_file() {
    let defs = vec![def("http/s", Some("GET"), Some("/"), None), def("tcp/custom", None, None, None)];
    assert_eq!(
        check_definitions("x.json", &defs),
        Err("Invalid definition: svc (x.json)\nError: __all__: Missing mandatory option field 'payload' for protocol 'tcp/custom'".to_string())
    );
    assert_eq!(check_definitions("x.json", &defs[..1]), Ok(()));
    let mut bad = def("http/s", Some("GET"), Some("/"), None);
    bad.service.regex = "(".to_string();
    assert_eq!(
        check_definitions("y.json", &[bad]),
        Err("Invalid definition: svc (y.json)\nError: service.regex: Invalid regex".to_string())
    );
}
