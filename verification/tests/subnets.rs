use lachesis::conf::HostRange;
use lachesis::subnets::{host_range, ipv4_text, next_subnet_target, parse_subnets, SubnetCursor};

fn ip(a: u32, b: u32, c: u32, d: u32) -> u32 {
    (a << 24) | (b << 16) | (c << 8) | d
}

#[test]
fn host_ranges_follow_prefix() {
    assert_eq!(host_range(ip(10, 0, 0, 0), 30), HostRange { first: ip(10, 0, 0, 1), last: ip(10, 0, 0, 2) });
    assert_eq!(host_range(ip(10, 0, 0, 0), 31), HostRange { first: ip(10, 0, 0, 0), last: ip(10, 0, 0, 1) });
    assert_eq!(host_range(ip(10, 0, 0, 7), 32), HostRange { first: ip(10, 0, 0, 7), last: ip(10, 0, 0, 7) });
    assert_eq!(host_range(ip(192, 168, 1, 77), 24), HostRange { first: ip(192, 168, 1, 1), last: ip(192, 168, 1, 254) });
    assert_eq!(host_range(ip(1, 2, 3, 4), 0), HostRange { first: 1, last: u32::MAX - 1 });
}

#[test]
fn parsing_subnets() {
    let ok = parse_subnets(&vec!["10.0.0.0/30".to_string(), "192.168.1.5/32".to_string()]).unwrap();
    assert_eq!(ok, vec![
        HostRange { first: ip(10, 0, 0, 1), last: ip(10, 0, 0, 2) },
        HostRange { first: ip(192, 168, 1, 5), last: ip(192, 168, 1, 5) },
    ]);
    assert_eq!(parse_subnets(&vec!["10.0.0.0/33".to_string()]), Err("Invalid value for parameter --subnet"));
    assert_eq!(parse_subnets(&vec!["10.0.0.0".to_string()]), Err("Invalid value for parameter --subnet"));
    assert_eq!(parse_subnets(&vec![]), Ok(vec![]));
}

#[test]
fn dotted_addresses() {
    assert_eq!(ipv4_text(ip(192, 168, 0, 1)), "192.168.0.1");
    assert_eq!(ipv4_text(0), "0.0.0.0");
    assert_eq!(ipv4_text(u32::MAX), "255.255.255.255");
}

#[test]
fn walking_subnets() {
    let ranges = parse_subnets(&vec!["10.0.0.0/30".to_string(), "10.0.1.0/31".to_string()]).unwrap();
    let mut c = SubnetCursor::new(ranges);
    let mut seen = Vec::new();
    while let Some(t) = next_subnet_target(&mut c) {
        assert_eq!(t.domain, t.ip);
        seen.push(t.ip);
    }
    assert_eq!(seen, vec!["10.0.0.1", "10.0.0.2", "10.0.1.0", "10.0.1.1"]);
}

#[test]
fn walking_skips_empty_ranges() {
    let ranges = vec![HostRange { first: 5, last: 4 }, HostRange { first: 9, last: 9 }];
    let mut c = SubnetCursor::new(ranges);
    assert_eq!(c.next_ip(), Some(9));
    assert_eq!(c.next_ip(), None);
}
