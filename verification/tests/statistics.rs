use lachesis::detector::DetectorResponse;
use lachesis::stats::{
    fail_line, format_host, int_err_line, match_line, response_line, timeout_line, PortStatus, RequestStatus, Stats,
};
use lachesis::worker::{PortStatus as Probe, ReqTarget};

fn target() -> ReqTarget {
    let mut t = ReqTarget::new("example.com".to_string(), "1.2.3.4".to_string());
    t.port = 443;
    t.protocol = "https".to_string();
    t.response = "héllo".to_string();
    t
}

#[test]
fn new_stats_are_zero() {
    let s = Stats::new(5);
    assert_eq!(s.max_targets, 5);
    assert_eq!(s.targets, 0);
    assert_eq!(s.ports, PortStatus::default());
    assert_eq!(s.https, RequestStatus::default());
    assert_eq!(s.matching, 0);
}

#[test]
fn increments_touch_one_protocol() {
    let mut s = Stats::new(0);
    s.increment_successful("https", true);
    s.increment_successful("http", false);
    s.increment_successful("ftp", true);
    s.increment_failed("tcp/custom");
    s.increment_timedout("http");
    s.increment_timedout("gopher");
    s.increment_targets();
    assert_eq!(s.https.successful, 1);
    assert_eq!(s.http.successful, 1);
    assert_eq!(s.tcp_custom.successful, 0);
    assert_eq!(s.tcp_custom.failed, 1);
    assert_eq!(s.http.timedout, 1);
    assert_eq!(s.matching, 2);
    assert_eq!(s.targets, 1);
    assert_eq!(s.total(), 4);
    assert_eq!(s.total_successful(), 2);
    assert_eq!(s.total_failed(), 1);
    assert_eq!(s.total_timedout(), 1);
    assert_eq!(s.http.total(), 2);
}

#[test]
fn request_running_mean() {
    let mut s = Stats::new(0);
    s.update_req_avg_time(100, "http");
    assert_eq!(s.http.avg_time, 100);
    s.increment_successful("http", false);
    s.update_req_avg_time(200, "http");
    assert_eq!(s.http.avg_time, 150);
    s.increment_successful("http", false);
    s.update_req_avg_time(0, "http");
    assert_eq!(s.http.avg_time, 100);
    s.update_req_avg_time(999, "unknown");
    assert_eq!(s.https.avg_time, 0);
    assert_eq!(s.total_req_avg_time(), 33);
}

#[test]
fn constant_samples_keep_the_mean() {
    let mut s = Stats::new(0);
    for _ in 0..10 {
        s.update_req_avg_time(42, "https");
        s.increment_successful("https", false);
        assert_eq!(s.https.avg_time, 42);
    }
}

#[test]
fn ports_counting() {
    let mut s = Stats::new(0);
    s.update_port(Probe::Open, 30);
    assert_eq!(s.ports.open, 1);
    assert_eq!(s.ports.avg_time, 15);
    s.update_port(Probe::Closed, 1000);
    s.update_port(Probe::Timedout, 1000);
    assert_eq!(s.ports.closed, 2);
    assert_eq!(s.ports.timedout, 1);
    assert_eq!(s.ports.avg_time, 15);
    assert_eq!(s.ports.total(), 3);
}

#[test]
fn report_lines() {
    let mut s = Stats::new(10);
    s.increment_targets();
    s.update_port(Probe::Open, 10);
    s.increment_successful("https", true);
    s.increment_failed("http");
    let m = s.messages();
    assert_eq!(m[0], "Targets: 1");
    assert_eq!(m[1], "Ports [tested: 1 open: 1 closed: 0 avg_time: 5ms timedout: 0]");
    assert_eq!(m[2], "Requests [total: 2 successful: 1 avg_time: 0ms failed: 1 timedout: 0 matching: 1]");
    assert_eq!(m[3], "Tcp/custom [successful: 0 avg_time: 0ms failed: 0 timedout: 0]");
    assert_eq!(m[4], "Http [successful: 0 avg_time: 0ms failed: 1 timedout: 0]");
    assert_eq!(m[5], "Https [successful: 1 avg_time: 0ms failed: 0 timedout: 0]");
    assert_eq!(
        s.unfinished_message(),
        Some("All the targets have been consumed before reaching the specified max-targets number. targets: 1 max_targets: 10".to_string())
    );
    assert_eq!(Stats::new(0).unfinished_message(), None);
}

#[test]
fn log_lines() {
    let t = target();
    assert_eq!(format_host(&t), "1.2.3.4 -> example.com");
    assert_eq!(response_line(&t), "[RESPONSE][HTTPS][1.2.3.4 -> example.com:443] Received a response. Length: 6");
    assert_eq!(timeout_line(&t), "[TIMEOUT][HTTPS][example.com:443] - Request timeout");
    assert_eq!(fail_line(&t, "Request error", &None), "[FAIL][HTTPS][example.com:443] - Request error");
    assert_eq!(
        fail_line(&t, "Request error", &Some("refused".to_string())),
        "[FAIL][HTTPS][example.com:443] - Request error: refused"
    );
    assert_eq!(int_err_line("boom"), "[ERROR] boom");
    let mut dr = DetectorResponse::new(t);
    dr.service = "apache".to_string();
    dr.version = "2.4.0".to_string();
    dr.description = "old".to_string();
    assert_eq!(match_line(&dr), "[MATCH][1.2.3.4 -> example.com] service: apache version: 2.4.0 description: old");
}
