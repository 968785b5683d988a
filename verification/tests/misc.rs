use lachesis::conf::first_existing;
use lachesis::worker::wants_more_targets;
use lachesis::browser::screenshot_url;
use lachesis::conf::{definition_candidates, find_text, run_mode, select_definition_files, Conf, DbConf, RunMode};
use lachesis::lachesis::{response_matched, ExitCode};
use lachesis::net::{body_limit, raw_response, request_url, socket_address, HttpsOptions};
use lachesis::detector::DetectorResponse;
use lachesis::utils::format_host;
use lachesis::web::db_error_message;
use lachesis::worker::ReqTarget;

fn target(domain: &str, protocol: &str) -> ReqTarget {
    let mut t = ReqTarget::new(domain.to_string(), "10.1.2.3".to_string());
    t.port = 8443;
    t.protocol = protocol.to_string();
    t
}

#[test]
fn default_conf() {
    let c = Conf::default();
    assert_eq!(c.req_timeout, 10);
    assert_eq!(c.max_response_size, 10240);
    assert_eq!(c.max_concurrent_requests, 0);
    assert!(!c.web_ui && !c.debug);
    let w = Conf::web_ui();
    assert!(w.web_ui && !w.debug);
    assert_eq!(w.user_agent, "");
    assert_eq!((w.db_conf.host.as_str(), w.db_conf.port.as_str(), w.db_conf.dbname.as_str()), ("", "", ""));
    assert_eq!((w.db_conf.user.as_str(), w.db_conf.password.as_str()), ("", ""));
    assert!(w.definitions.is_empty() && w.subnets.is_empty() && w.dataset.is_empty());
    assert_eq!((w.max_targets, w.req_timeout, w.max_response_size), (0, 10, 10240));
}

#[test]
fn modes() {
    assert_eq!(run_mode(true, false, false), Ok(RunMode::WebUi));
    assert_eq!(run_mode(false, false, false), Err("One of --dataset/-D or --subnet/-S is required"));
    assert_eq!(run_mode(false, true, false), Ok(RunMode::Scan));
    assert_eq!(run_mode(false, false, true), Ok(RunMode::Scan));
}

#[test]
fn definition_files() {
    assert_eq!(
        definition_candidates("redis"),
        vec!["resources/definitions/redis.json", "resources/definitions/redis", "redis"]
    );
    let names = vec!["redis.json".to_string(), "http.json".to_string(), "ssh.json".to_string()];
    let excluded = vec!["http".to_string(), "ssh.json".to_string()];
    assert_eq!(select_definition_files(&names, &excluded), Ok(vec!["resources/definitions/redis.json".to_string()]));
    assert_eq!(
        select_definition_files(&vec!["README.md".to_string()], &vec![]),
        Err("Found extraneous files in resources/definitions (not .json)")
    );
    assert_eq!(
        select_definition_files(&vec!["a.json".to_string()], &vec!["a".to_string()]),
        Err("No definition files found in resources/definitions")
    );
    assert_eq!(select_definition_files(&vec![], &vec![]), Err("No definition files found in resources/definitions"));
}

#[test]
fn finding_text() {
    assert_eq!(find_text("redis.json", ".json"), Some(5));
    assert_eq!(find_text("a.json.json", ".json"), Some(1));
    assert_eq!(find_text("redis", ".json"), None);
    assert_eq!(find_text("", ""), Some(0));
}

#[test]
fn database_and_exit() {
    let c = DbConf {
        host: "h".to_string(),
        port: "5432".to_string(),
        dbname: "d".to_string(),
        user: "u".to_string(),
        password: "p".to_string(),
    };
    assert_eq!(c.connection_string(), "host=h port=5432 dbname=d user=u password=p");
    assert_eq!(ExitCode::Success.report(), 0);
    assert_eq!(ExitCode::Failure.report(), 1);
}

#[test]
fn matched_responses() {
    let mut a = DetectorResponse::new(target("", "http"));
    a.error = Some("bad".to_string());
    let b = DetectorResponse::new(target("", "http"));
    assert!(!response_matched(&vec![]));
    assert!(!response_matched(&vec![DetectorResponse::new(target("", "http")) ].into_iter().map(|mut r| { r.error = Some("e".to_string()); r }).collect()));
    assert!(response_matched(&vec![a, b]));
}

#[test]
fn network_texts() {
    let t = target("example.com", "https");
    assert_eq!(request_url(&t, "/login"), "https://10.1.2.3:8443/login");
    assert_eq!(socket_address("10.1.2.3", 8443), "10.1.2.3:8443");
    assert_eq!(
        raw_response("HTTP/1.1 200 OK", &vec![("server".to_string(), "x".to_string()), ("a".to_string(), "".to_string())], "body"),
        "HTTP/1.1 200 OK\r\nserver: x\r\na: \r\n\r\nbody"
    );
    assert_eq!(raw_response("HTTP/2.0 404 Not Found", &vec![], ""), "HTTP/2.0 404 Not Found\r\n\r\n");
    assert_eq!(body_limit(5, 10), 5);
    assert_eq!(body_limit(50, 10), 10);
    let o = HttpsOptions { method: "GET".to_string(), path: "/".to_string(), headers: vec![], payload: String::new() };
    let p = o.duplicate();
    assert!(o.same_as(&p));
    let q = HttpsOptions { method: "GET".to_string(), path: "/".to_string(), headers: vec![("a".to_string(), "b".to_string())], payload: String::new() };
    assert!(!o.same_as(&q));
}

#[test]
fn hosts_and_screenshots() {
    assert_eq!(format_host(&target("example.com", "http")), "10.1.2.3 -> example.com");
    assert_eq!(format_host(&target("", "http")), "10.1.2.3");
    assert_eq!(screenshot_url(&target("example.com", "https")), Some("https://example.com:8443".to_string()));
    assert_eq!(screenshot_url(&target("", "http")), Some("http://10.1.2.3:8443".to_string()));
    assert_eq!(screenshot_url(&target("x", "tcp/custom")), None);
    assert_eq!(db_error_message("oops").message, "[ERROR] Db query error: oops");
}

#[test]
fn first_existing_candidate() {
    assert_eq!(first_existing(&vec![false, true, true]), Some(1));
    assert_eq!(first_existing(&vec![false, false]), None);
    assert_eq!(first_existing(&vec![]), None);
}

#[test]
fn target_limit() {
    assert!(wants_more_targets(0, 1_000_000));
    assert!(wants_more_targets(3, 2));
    assert!(!wants_more_targets(3, 3));
}
