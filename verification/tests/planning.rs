use lachesis::conf::{Definition, Options, Service};
use lachesis::worker::{
    open_ports, plan_requests, request_target, target_from_record, unique_ports, DatasetRecord, PlannedRequest, PortStatus, PortTarget,
};

fn def(protocol: &str, ports: Vec<u16>, payload: Option<&str>, path: Option<&str>) -> Definition {
    Definition {
        name: "d".to_string(),
        protocol: protocol.to_string(),
        options: Options {
            method: if protocol == "http/s" { Some("GET".to_string()) } else { None },
            path: path.map(|s| s.to_string()),
            headers: Some(vec![("X-A".to_string(), "1".to_string())]),
            ports,
            timeout: None,
            payload: payload.map(|s| s.to_string()),
        },
        service: Service { regex: "x".to_string(), log: false },
        versions: None,
    }
}

fn describe(p: &PlannedRequest) -> String {
    match p {
        PlannedRequest::TcpCustom { port, payload } => format!("tcp {} {}", port, payload),
        PlannedRequest::Https { port, options } => format!("https {} {}", port, options.path),
        PlannedRequest::Http { port, options } => format!("http {} {}", port, options.path),
    }
}

#[test]
fn ports_once_each_in_first_order() {
    let defs = vec![def("http/s", vec![80, 443, 80], None, Some("/")), def("tcp/custom", vec![6379, 443], Some("PING"), None)];
    assert_eq!(unique_ports(&defs), vec![80, 443, 6379]);
    assert_eq!(unique_ports(&[]), Vec::<u16>::new());
}

#[test]
fn open_ports_drop_any_not_open() {
    let probe = |port: u16, status: PortStatus| PortTarget {
        ip: "1.1.1.1".to_string(),
        port,
        status,
        time: std::time::Instant::now(),
    };
    let probes = vec![probe(80, PortStatus::Open), probe(443, PortStatus::Timedout), probe(22, PortStatus::Closed)];
    assert_eq!(open_ports(&vec![80, 443, 22, 8080], &probes), vec![80, 8080]);
}

#[test]
fn plan_orders_and_filters() {
    let defs = vec![
        def("http/s", vec![80, 443, 8080], None, Some("/a")),
        def("tcp/custom", vec![6379, 9999], Some("PING"), None),
        def("http/s", vec![8080], None, Some("/a")),
        def("http/s", vec![8080], None, Some("/b")),
        def("other", vec![80], None, None),
    ];
    let plan = plan_requests(&defs, &vec![80, 443, 8080, 6379]);
    let got: Vec<String> = plan.iter().map(describe).collect();
    assert_eq!(
        got,
        vec![
            "tcp 6379 PING",
            "https 443 /a",
            "https 8080 /a",
            "http 80 /a",
            "http 8080 /a",
        ]
    );
}

#[test]
fn one_request_per_protocol_and_port() {
    let defs = vec![def("http/s", vec![8080], None, Some("/first")), def("http/s", vec![8080, 443], None, Some("/second"))];
    let plan = plan_requests(&defs, &vec![8080, 443]);
    let got: Vec<String> = plan.iter().map(describe).collect();
    assert_eq!(got, vec!["https 8080 /first", "https 443 /second", "http 8080 /first"]);
}

#[test]
fn plan_nothing_open() {
    let defs = vec![def("http/s", vec![80], None, Some("/"))];
    assert!(plan_requests(&defs, &vec![]).is_empty());
}

#[test]
fn dataset_records() {
    let a = DatasetRecord { name: "example.com".to_string(), record_type: "a".to_string(), value: "1.2.3.4".to_string() };
    let t = target_from_record(a).unwrap();
    assert_eq!(t.domain, "example.com");
    assert_eq!(t.ip, "1.2.3.4");
    let cname = DatasetRecord { name: "x".to_string(), record_type: "cname".to_string(), value: "y".to_string() };
    assert!(target_from_record(cname).is_none());
}

#[test]
fn request_targets() {
    let mut t = target_from_record(DatasetRecord {
        name: "example.com".to_string(),
        record_type: "a".to_string(),
        value: "1.2.3.4".to_string(),
    })
    .unwrap();
    t.response = "kept".to_string();
    let defs = vec![def("tcp/custom", vec![6379], Some("PING"), None), def("http/s", vec![8443], None, Some("/"))];
    let plan = plan_requests(&defs, &vec![6379, 8443]);
    let got: Vec<(String, String, u16, String, String)> = plan
        .iter()
        .map(|r| {
            let rt = request_target(&t, r);
            (rt.domain, rt.ip, rt.port, rt.protocol, rt.response)
        })
        .collect();
    assert_eq!(
        got,
        vec![
            ("".to_string(), "1.2.3.4".to_string(), 6379, "tcp/custom".to_string(), "kept".to_string()),
            ("example.com".to_string(), "1.2.3.4".to_string(), 8443, "https".to_string(), "kept".to_string()),
            ("example.com".to_string(), "1.2.3.4".to_string(), 8443, "http".to_string(), "kept".to_string()),
        ]
    );
}
