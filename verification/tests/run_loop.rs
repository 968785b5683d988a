use std::time::Instant;

use lachesis::conf::{Definition, Options, Service};
use lachesis::lachesis::{handle_message, Action};
use lachesis::stats::{open_port_line, Stats};
use lachesis::worker::{PortStatus, PortTarget, ReqTarget, WorkerMessage};

fn nginx() -> Definition {
    Definition {
        name: "nginx".to_string(),
        protocol: "http/s".to_string(),
        options: Options {
            method: Some("GET".to_string()),
            path: Some("/".to_string()),
            headers: None,
            ports: vec![80],
            timeout: None,
            payload: None,
        },
        service: Service { regex: "nginx".to_string(), log: true },
        versions: None,
    }
}

fn response(domain: &str, body: &str) -> ReqTarget {
    let mut t = ReqTarget::new(domain.to_string(), "10.0.0.9".to_string());
    t.port = 80;
    t.protocol = "http".to_string();
    t.response = body.to_string();
    t
}

fn describe(actions: &[Action]) -> Vec<String> {
    actions
        .iter()
        .map(|a| match a {
            Action::Log(l) => format!("log {}", l),
            Action::SaveOpenPort(ip, port) => format!("port {} {}", ip, port),
            Action::SaveDomain(d) => format!("domain {}", d),
            Action::SaveService(dr) => format!("service {} {}", dr.service, dr.target.ip),
            Action::Stop => "stop".to_string(),
        })
        .collect()
}

#[test]
fn open_port_is_printed_stored_and_counted() {
    let mut stats = Stats::new(0);
    let msg = WorkerMessage::PortTarget(PortTarget {
        ip: "10.0.0.9".to_string(),
        port: 443,
        status: PortStatus::Open,
        time: Instant::now(),
    });
    let actions = handle_message(&mut stats, &[], false, msg, 30).unwrap();
    assert_eq!(describe(&actions), vec!["log [OPEN PORTS][10.0.0.9] [443]", "port 10.0.0.9 443"]);
    assert_eq!(open_port_line("10.0.0.9", 443), "[OPEN PORTS][10.0.0.9] [443]");
    assert_eq!(stats.ports.open, 1);
    assert_eq!(stats.ports.avg_time, 15);
}

#[test]
fn closed_port_is_only_counted() {
    let mut stats = Stats::new(0);
    let msg = WorkerMessage::PortTarget(PortTarget {
        ip: "10.0.0.9".to_string(),
        port: 22,
        status: PortStatus::Timedout,
        time: Instant::now(),
    });
    let actions = handle_message(&mut stats, &[], false, msg, 30).unwrap();
    assert!(actions.is_empty());
    assert_eq!((stats.ports.open, stats.ports.closed, stats.ports.timedout), (0, 1, 1));
}

#[test]
fn matching_response_is_printed_stored_and_counted() {
    let mut stats = Stats::new(0);
    let msg = WorkerMessage::Response(response("example.com", "Server: nginx"));
    let actions = handle_message(&mut stats, &[nginx()], false, msg, 40).unwrap();
    assert_eq!(
        describe(&actions),
        vec![
            "log [RESPONSE][HTTP][10.0.0.9 -> example.com:80] Received a response. Length: 13",
            "domain example.com",
            "log [MATCH][10.0.0.9 -> example.com] service: nginx version:  description: ",
            "service nginx 10.0.0.9",
        ]
    );
    assert_eq!((stats.http.successful, stats.http.avg_time, stats.matching), (1, 40, 1));
}

#[test]
fn response_without_domain_and_match() {
    let mut stats = Stats::new(0);
    let msg = WorkerMessage::Response(response("", "Server: apache"));
    let actions = handle_message(&mut stats, &[nginx()], false, msg, 40).unwrap();
    assert_eq!(describe(&actions), vec!["log [RESPONSE][HTTP][10.0.0.9:80] Received a response. Length: 14"]);
    assert_eq!((stats.http.successful, stats.matching), (1, 0));
}

#[test]
fn response_with_broken_definition_is_refused() {
    let mut stats = Stats::new(0);
    let mut broken = nginx();
    broken.service.regex = "(".to_string();
    let msg = WorkerMessage::Response(response("example.com", "Server: nginx"));
    assert!(handle_message(&mut stats, &[broken], false, msg, 40).is_none());
    assert_eq!(stats, Stats::new(0));
}

#[test]
fn failures_and_timeouts_print_in_debug_only() {
    let mut stats = Stats::new(0);
    let fail = || WorkerMessage::Fail(response("example.com", ""), "Request error".to_string(), None);
    assert!(handle_message(&mut stats, &[], false, fail(), 0).unwrap().is_empty());
    assert_eq!(
        describe(&handle_message(&mut stats, &[], true, fail(), 0).unwrap()),
        vec!["log [FAIL][HTTP][example.com:80] - Request error"]
    );
    assert_eq!(stats.http.failed, 2);
    let timeout = WorkerMessage::Timeout(response("example.com", ""));
    assert_eq!(
        describe(&handle_message(&mut stats, &[], true, timeout, 0).unwrap()),
        vec!["log [TIMEOUT][HTTP][example.com:80] - Request timeout"]
    );
    assert_eq!(stats.http.timedout, 1);
}

#[test]
fn targets_and_shutdown() {
    let mut stats = Stats::new(5);
    assert!(handle_message(&mut stats, &[], false, WorkerMessage::NextTarget, 0).unwrap().is_empty());
    assert_eq!(stats.targets, 1);
    let actions = handle_message(&mut stats, &[], false, WorkerMessage::Shutdown, 0).unwrap();
    assert_eq!(describe(&actions), vec!["stop"]);
    assert_eq!(stats.targets, 1);
}

#[test]
fn overflowing_counter_is_refused() {
    let mut stats = Stats::new(0);
    stats.targets = u64::MAX;
    assert!(handle_message(&mut stats, &[], false, WorkerMessage::NextTarget, 0).is_none());
    assert_eq!(stats.targets, u64::MAX);
}

#[test]
fn each_message_counts_once() {
    let mut stats = Stats::new(3);
    let msgs = vec![
        WorkerMessage::NextTarget,
        WorkerMessage::Response(response("example.com", "Server: nginx")),
        WorkerMessage::Fail(response("", ""), "Request error".to_string(), Some("refused".to_string())),
        WorkerMessage::Timeout(response("", "")),
        WorkerMessage::Response(response("", "nothing here")),
    ];
    let mut previous = stats.total();
    for msg in msgs {
        handle_message(&mut stats, &[nginx()], false, msg, 10).unwrap();
        assert!(stats.total() <= previous + 1);
        assert!(stats.total() >= previous);
        previous = stats.total();
    }
    assert_eq!((stats.targets, stats.total(), stats.total_successful(), stats.matching), (1, 4, 2, 1));
    assert_eq!(stats.max_targets, 3);
}
