use lachesis::conf::{Definition, Options, RangeVersion, RegexVersion, SemverVersions, Service, Versions};
use lachesis::detector::{complete_semver, detect, detect_with_probes, probe_definition, try_detect, DefinitionProbe, DetectorResponse};
use lachesis::worker::ReqTarget;

fn target(response: &str) -> ReqTarget {
    let mut t = ReqTarget::new("example.com".to_string(), "10.0.0.1".to_string());
    t.port = 8080;
    t.protocol = "http".to_string();
    t.response = response.to_string();
    t
}

fn options() -> Options {
    Options {
        method: Some("GET".to_string()),
        path: Some("/".to_string()),
        headers: None,
        ports: vec![80, 8080],
        timeout: None,
        payload: None,
    }
}

fn apache(log: bool) -> Definition {
    Definition {
        name: "apache".to_string(),
        protocol: "http/s".to_string(),
        options: options(),
        service: Service { regex: "Apache".to_string(), log },
        versions: Some(Versions {
            semver: Some(SemverVersions {
                regex: r"Apache/(?P<version>[0-9.]+)".to_string(),
                ranges: vec![
                    RangeVersion { from: "2.0.0".to_string(), to: "2.4.10".to_string(), description: "old".to_string() },
                    RangeVersion { from: "2.4.0".to_string(), to: "2.4.99".to_string(), description: "2.4 line".to_string() },
                    RangeVersion { from: "3.0.0".to_string(), to: "3.9.9".to_string(), description: "future".to_string() },
                ],
            }),
            regex: Some(vec![RegexVersion {
                regex: "mod_ssl".to_string(),
                version: "ssl".to_string(),
                description: "has mod_ssl".to_string(),
            }]),
        }),
    }
}

fn summary(rs: &[DetectorResponse]) -> Vec<(String, String, String, Option<String>)> {
    rs.iter().map(|r| (r.service.clone(), r.version.clone(), r.description.clone(), r.error.clone())).collect()
}

#[test]
fn complete_semver_appends_missing_parts() {
    assert_eq!(complete_semver("4.6"), "4.6.0");
    assert_eq!(complete_semver("4"), "4.0");
    assert_eq!(complete_semver("4.6.1"), "4.6.1");
    assert_eq!(complete_semver("1.2.3.4"), "1.2.3.4");
    assert_eq!(complete_semver(""), ".0");
}

#[test]
fn detect_reports_service_ranges_and_patterns_in_order() {
    let t = target("HTTP/1.1 200 OK\r\nServer: Apache/2.4 mod_ssl\r\n\r\n");
    let rs = detect(&t, &[apache(true)]);
    assert_eq!(
        summary(&rs),
        vec![
            ("apache".to_string(), "".to_string(), "".to_string(), None),
            ("apache".to_string(), "2.4.0".to_string(), "old".to_string(), None),
            ("apache".to_string(), "2.4.0".to_string(), "2.4 line".to_string(), None),
            ("apache".to_string(), "ssl".to_string(), "has mod_ssl".to_string(), None),
        ]
    );
    for r in &rs {
        assert_eq!(r.target.domain, "example.com");
        assert_eq!(r.target.ip, "10.0.0.1");
        assert_eq!(r.target.port, 8080);
    }
}

#[test]
fn detect_without_log_reports_only_versions() {
    let t = target("Server: Apache/2.4.50");
    let rs = detect(&t, &[apache(false)]);
    assert_eq!(summary(&rs), vec![("apache".to_string(), "2.4.50".to_string(), "2.4 line".to_string(), None)]);
}

#[test]
fn detect_no_service_no_findings() {
    let t = target("Server: nginx/1.2.3");
    assert!(detect(&t, &[apache(true)]).is_empty());
}

#[test]
fn detect_no_version_capture_skips_patterns() {
    let t = target("Server: Apache mod_ssl");
    let rs = detect(&t, &[apache(true)]);
    assert_eq!(summary(&rs), vec![("apache".to_string(), "".to_string(), "".to_string(), None)]);
}

#[test]
fn detect_invalid_semver_reports_error() {
    let t = target("Server: Apache/01.2 mod_ssl");
    let rs = detect(&t, &[apache(false)]);
    assert_eq!(rs.len(), 1);
    assert_eq!(rs[0].version, "01.2.0");
    assert_eq!(
        rs[0].error,
        Some("[10.0.0.1 -> example.com:8080] - Unknown or invalid semver: 01.2.0".to_string())
    );
}

#[test]
fn detect_pattern_only_definition() {
    let mut d = apache(true);
    d.versions = Some(Versions {
        semver: None,
        regex: Some(vec![
            RegexVersion { regex: "Apache/1".to_string(), version: "1.x".to_string(), description: "one".to_string() },
            RegexVersion { regex: "Apache/2".to_string(), version: "2.x".to_string(), description: "two".to_string() },
        ]),
    });
    let rs = detect(&target("Apache/2.2"), &[d]);
    assert_eq!(
        summary(&rs),
        vec![
            ("apache".to_string(), "".to_string(), "".to_string(), None),
            ("apache".to_string(), "2.x".to_string(), "two".to_string(), None),
        ]
    );
}

#[test]
fn detect_concatenates_definitions_in_order() {
    let mut other = apache(true);
    other.name = "server".to_string();
    other.service.regex = "Server".to_string();
    other.versions = None;
    let rs = detect(&target("Server: Apache/3.1"), &[other, apache(false)]);
    assert_eq!(
        summary(&rs),
        vec![
            ("server".to_string(), "".to_string(), "".to_string(), None),
            ("apache".to_string(), "3.1.0".to_string(), "future".to_string(), None),
        ]
    );
}

#[test]
fn detect_on_joined_definitions_is_joined_detection() {
    let server = || {
        let mut d = apache(true);
        d.name = "server".to_string();
        d.service.regex = "Server".to_string();
        d.versions = None;
        d
    };
    let t = target("Server: Apache/2.4 mod_ssl");
    let mut joined = summary(&detect(&t, &[server()]));
    joined.extend(summary(&detect(&t, &[apache(true)])));
    assert_eq!(joined.len(), 5);
    assert_eq!(summary(&detect(&t, &[server(), apache(true)])), joined);
    assert!(detect(&t, &[]).is_empty());
}

#[test]
fn try_detect_refuses_group_outside_match() {
    let mut d = apache(true);
    if let Some(v) = d.versions.as_mut() {
        if let Some(sv) = v.semver.as_mut() {
            sv.regex = r"Apache(/(?P<version>[0-9.]+))?".to_string();
        }
    }
    assert!(try_detect(&target("Apache here"), &[d]).is_none());
    assert!(try_detect(&target("Apache/2.4.1"), &[apache(true)]).is_some());
}

#[test]
fn try_detect_refuses_invalid_service_pattern() {
    let mut d = apache(true);
    d.service.regex = "Apache(".to_string();
    assert!(try_detect(&target("Apache"), &[d]).is_none());
}

#[test]
fn probe_answers_engines() {
    let t = target("Server: Apache/2.4 mod_ssl");
    let p = probe_definition(&t, &apache(true)).unwrap();
    assert!(p.service_found);
    assert_eq!(p.version_capture, Some("2.4".to_string()));
    assert!(p.version_parsed);
    assert_eq!(p.ranges_hit, vec![true, true, false]);
    assert_eq!(p.regex_hits, vec![true]);
}

#[test]
fn decisions_follow_given_answers() {
    let t = target("");
    let probe = DefinitionProbe {
        service_found: true,
        version_capture: Some("7".to_string()),
        version_parsed: true,
        ranges_hit: vec![false, false, true],
        regex_hits: vec![true],
    };
    let rs = detect_with_probes(&t, &[apache(false)], &vec![probe]);
    assert_eq!(
        summary(&rs),
        vec![
            ("apache".to_string(), "7.0".to_string(), "future".to_string(), None),
            ("apache".to_string(), "ssl".to_string(), "has mod_ssl".to_string(), None),
        ]
    );
    let failed = DefinitionProbe {
        service_found: true,
        version_capture: Some("x".to_string()),
        version_parsed: false,
        ranges_hit: vec![false, false, false],
        regex_hits: vec![false],
    };
    let rs = detect_with_probes(&t, &[apache(true)], &vec![failed]);
    assert_eq!(rs.len(), 2);
    assert_eq!(rs[1].error, Some("[10.0.0.1 -> example.com:8080] - Unknown or invalid semver: x.0".to_string()));
}
