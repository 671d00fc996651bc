use scanner::address::IpAddress;
use scanner::error::ScanError;
use scanner::probe::{classify, ConnectSignal, PortOutcome, PROBE_TIMEOUT_SECS};
use scanner::report::{push_port_list, ScanReport};
use scanner::scan::{scanner, Scan, ScanRequest};

fn request(address: &str, ports: &str) -> ScanRequest {
    ScanRequest::from_text(address, ports).unwrap()
}

fn report(open: &[u16], closed: &[u16], filtered: &[u16]) -> ScanReport {
    ScanReport { open: open.to_vec(), closed: closed.to_vec(), filtered: filtered.to_vec() }
}

#[test]
fn completed_handshake_is_open() {
    assert_eq!(classify(ConnectSignal::Connected), PortOutcome::Open);
}

#[test]
fn refusal_by_the_peer_is_closed() {
    assert_eq!(classify(ConnectSignal::Refused), PortOutcome::Closed);
    assert_eq!(classify(ConnectSignal::Reset), PortOutcome::Closed);
}

#[test]
fn every_other_failure_is_filtered() {
    assert_eq!(classify(ConnectSignal::TimedOut), PortOutcome::Filtered);
    assert_eq!(classify(ConnectSignal::HostUnreachable), PortOutcome::Filtered);
    assert_eq!(classify(ConnectSignal::NetworkUnreachable), PortOutcome::Filtered);
    assert_eq!(classify(ConnectSignal::PermissionDenied), PortOutcome::Filtered);
    assert_eq!(classify(ConnectSignal::NoSocketAddress), PortOutcome::Filtered);
    assert_eq!(classify(ConnectSignal::Other), PortOutcome::Filtered);
}

#[test]
fn probe_deadline_is_three_seconds() {
    assert_eq!(PROBE_TIMEOUT_SECS, 3);
}

#[test]
fn request_holds_target_and_ports() {
    let r = request("127.0.0.1", "80-82");
    assert_eq!(r.target(), IpAddress::V4([127, 0, 0, 1]));
    assert_eq!(r.ports(), &[80, 81, 82]);
    let r = request("::1", "54321");
    assert_eq!(r.target(), IpAddress::V6([0, 0, 0, 0, 0, 0, 0, 1]));
    assert_eq!(r.ports(), &[54321]);
}

#[test]
fn request_refuses_bad_address_before_bad_ports() {
    assert_eq!(ScanRequest::from_text("not.an.ip", "80"), Err(ScanError::InvalidAddress));
    assert_eq!(ScanRequest::from_text("bogus", "0"), Err(ScanError::InvalidAddress));
    assert_eq!(ScanRequest::from_text("bogus", "9-1"), Err(ScanError::InvalidAddress));
    assert_eq!(ScanRequest::from_text("127.0.0.1", "0"), Err(ScanError::InvalidPort));
    assert_eq!(ScanRequest::from_text("127.0.0.1", "65536"), Err(ScanError::InvalidPort));
    assert_eq!(ScanRequest::from_text("127.0.0.1", "81-80"), Err(ScanError::InvalidRange));
    assert_eq!(ScanRequest::from_text("::1", "1-2-3"), Err(ScanError::InvalidRange));
}

#[test]
fn listening_port_is_reported_open() {
    let r = scanner(request("127.0.0.1", "54321"), &[ConnectSignal::Connected]);
    assert_eq!(r, report(&[54321], &[], &[]));
    assert_eq!(r.render(), "Open ports: 54321\nClosed ports: \nFiltered ports: \n");
}

#[test]
fn refusing_port_is_reported_closed() {
    let r = scanner(request("127.0.0.1", "54322"), &[ConnectSignal::Refused]);
    assert_eq!(r, report(&[], &[54322], &[]));
    assert_eq!(r.render(), "Open ports: \nClosed ports: 54322\nFiltered ports: \n");
}

#[test]
fn silent_port_is_reported_filtered() {
    let r = scanner(request("10.255.255.1", "80"), &[ConnectSignal::TimedOut]);
    assert_eq!(r, report(&[], &[], &[80]));
    assert_eq!(r.render(), "Open ports: \nClosed ports: \nFiltered ports: 80\n");
    let text = r.render();
    let lines: Vec<&str> = text.lines().collect();
    assert_eq!(lines[2], "Filtered ports: 80");
}

#[test]
fn range_with_one_listener() {
    let signals = [ConnectSignal::Refused, ConnectSignal::Connected, ConnectSignal::Refused];
    let r = scanner(request("127.0.0.1", "80-82"), &signals);
    assert_eq!(r, report(&[81], &[80, 82], &[]));
    assert_eq!(r.render(), "Open ports: 81\nClosed ports: 80, 82\nFiltered ports: \n");
}

#[test]
fn report_is_exactly_three_lines() {
    let signals = [ConnectSignal::Other, ConnectSignal::Connected, ConnectSignal::Reset];
    let text = scanner(request("::1", "1-3"), &signals).render();
    assert!(text.ends_with('\n'));
    let lines: Vec<&str> = text.lines().collect();
    assert_eq!(lines, vec!["Open ports: 2", "Closed ports: 3", "Filtered ports: 1"]);
}

#[test]
fn lists_keep_scan_order() {
    let signals = [
        ConnectSignal::Connected,
        ConnectSignal::TimedOut,
        ConnectSignal::Connected,
        ConnectSignal::Refused,
        ConnectSignal::HostUnreachable,
        ConnectSignal::Connected,
        ConnectSignal::Reset,
    ];
    let r = scanner(request("192.168.0.1", "20-26"), &signals);
    assert_eq!(r, report(&[20, 22, 25], &[23, 26], &[21, 24]));
    assert_eq!(
        r.render(),
        "Open ports: 20, 22, 25\nClosed ports: 23, 26\nFiltered ports: 21, 24\n"
    );
}

#[test]
fn lists_partition_the_scanned_ports() {
    let kinds = [
        ConnectSignal::Connected,
        ConnectSignal::Refused,
        ConnectSignal::TimedOut,
        ConnectSignal::Reset,
        ConnectSignal::Other,
    ];
    let signals: Vec<ConnectSignal> = (0..500usize).map(|i| kinds[(i * i + 3 * i) % 5]).collect();
    let r = scanner(request("127.0.0.1", "1000-1499"), &signals);
    assert_eq!(r.open.len() + r.closed.len() + r.filtered.len(), 500);
    let mut all: Vec<u16> = Vec::new();
    all.extend(&r.open);
    all.extend(&r.closed);
    all.extend(&r.filtered);
    all.sort();
    let expected: Vec<u16> = (1000..1500).collect();
    assert_eq!(all, expected);
    for port in &r.open {
        assert!(!r.closed.contains(port));
        assert!(!r.filtered.contains(port));
    }
    for port in &r.closed {
        assert!(!r.filtered.contains(port));
    }
}

#[test]
fn same_signals_give_the_same_report() {
    let signals = [ConnectSignal::Refused, ConnectSignal::Connected, ConnectSignal::TimedOut];
    let first = scanner(request("127.0.0.1", "80-82"), &signals);
    let second = scanner(request("127.0.0.1", "80-82"), &signals);
    assert_eq!(first, second);
    assert_eq!(first.render(), second.render());
}

#[test]
fn signals_of_one_class_give_the_same_report() {
    let first = [ConnectSignal::Refused, ConnectSignal::TimedOut, ConnectSignal::Other];
    let second = [ConnectSignal::Reset, ConnectSignal::HostUnreachable, ConnectSignal::PermissionDenied];
    assert_eq!(
        scanner(request("127.0.0.1", "80-82"), &first),
        scanner(request("127.0.0.1", "80-82"), &second)
    );
}

#[test]
fn ports_without_a_signal_are_left_out() {
    let r = scanner(request("127.0.0.1", "80-85"), &[ConnectSignal::Connected, ConnectSignal::Refused]);
    assert_eq!(r, report(&[80], &[81], &[]));
    let r = scanner(request("127.0.0.1", "80-85"), &[]);
    assert_eq!(r, report(&[], &[], &[]));
}

#[test]
fn signals_without_a_port_are_passed_over() {
    let signals = [ConnectSignal::Refused, ConnectSignal::Connected, ConnectSignal::Connected];
    let r = scanner(request("127.0.0.1", "80"), &signals);
    assert_eq!(r, report(&[], &[80], &[]));
}

#[test]
fn scan_names_ports_in_order() {
    let mut scan = Scan::new(request("127.0.0.1", "80-82"));
    assert_eq!(scan.target(), IpAddress::V4([127, 0, 0, 1]));
    assert_eq!(scan.next_port(), Some(80));
    assert_eq!(scan.next_port(), Some(80));
    assert_eq!(scan.report(), &report(&[], &[], &[]));
    scan = scan.record(ConnectSignal::Refused);
    assert_eq!(scan.next_port(), Some(81));
    assert_eq!(scan.report(), &report(&[], &[80], &[]));
    scan = scan.record(ConnectSignal::Connected);
    assert_eq!(scan.next_port(), Some(82));
    assert_eq!(scan.report(), &report(&[81], &[80], &[]));
    scan = scan.record(ConnectSignal::NetworkUnreachable);
    assert_eq!(scan.next_port(), None);
    assert_eq!(scan.target(), IpAddress::V4([127, 0, 0, 1]));
    assert_eq!(scan.report(), &report(&[81], &[80], &[82]));
    assert_eq!(scan.into_report(), report(&[81], &[80], &[82]));
}

#[test]
fn signal_after_the_last_port_changes_nothing() {
    let mut scan = Scan::new(request("::1", "443"));
    scan = scan.record(ConnectSignal::Connected);
    assert_eq!(scan.next_port(), None);
    scan = scan.record(ConnectSignal::Refused);
    scan = scan.record(ConnectSignal::TimedOut);
    assert_eq!(scan.next_port(), None);
    assert_eq!(scan.into_report(), report(&[443], &[], &[]));
}

#[test]
fn scan_driven_to_the_end_matches_scanner() {
    let signals = [ConnectSignal::TimedOut, ConnectSignal::Connected, ConnectSignal::Refused, ConnectSignal::Other];
    let mut scan = Scan::new(request("10.0.0.1", "8000-8003"));
    let mut i = 0;
    let mut probed: Vec<u16> = Vec::new();
    while let Some(port) = scan.next_port() {
        probed.push(port);
        scan = scan.record(signals[i]);
        i += 1;
    }
    assert_eq!(probed, vec![8000, 8001, 8002, 8003]);
    assert_eq!(scan.into_report(), scanner(request("10.0.0.1", "8000-8003"), &signals));
}

#[test]
fn empty_report_renders_three_bare_labels() {
    let r = ScanReport::new();
    assert_eq!(r, report(&[], &[], &[]));
    assert_eq!(r.render(), "Open ports: \nClosed ports: \nFiltered ports: \n");
}

#[test]
fn report_record_appends_to_one_list() {
    let mut r = ScanReport::new();
    r.record(22, PortOutcome::Open);
    assert_eq!(r, report(&[22], &[], &[]));
    r.record(23, PortOutcome::Closed);
    assert_eq!(r, report(&[22], &[23], &[]));
    r.record(25, PortOutcome::Filtered);
    assert_eq!(r, report(&[22], &[23], &[25]));
    r.record(80, PortOutcome::Open);
    r.record(65535, PortOutcome::Open);
    assert_eq!(r, report(&[22, 80, 65535], &[23], &[25]));
    assert_eq!(r.render(), "Open ports: 22, 80, 65535\nClosed ports: 23\nFiltered ports: 25\n");
}

#[test]
fn port_list_is_comma_space_separated() {
    let mut out = String::from("x");
    push_port_list(&mut out, &[]);
    assert_eq!(out, "x");
    push_port_list(&mut out, &[1]);
    assert_eq!(out, "x1");
    push_port_list(&mut out, &[2, 30, 65535]);
    assert_eq!(out, "x12, 30, 65535");
}
