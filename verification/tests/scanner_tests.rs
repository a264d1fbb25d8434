//! The coordinator state machine: enumeration order, the concurrency
//! bound, discovery deduplication, the fatal path, and a whole run.

use astra_scanner::config::{Config, ScannerConfig, SimpleScannerConfig};
use astra_scanner::scanner::{
    build_targets, calculate_total_combinations, fingerprint_matches, server_key, ScanCoordinator,
    ScanState, Server, SimpleScanner, Target,
};
use astra_scanner::ScanError;

fn test_config(max_workers: usize, batch_size: usize) -> ScannerConfig {
    let mut c = Config::default().scanner;
    c.max_workers = max_workers;
    c.batch_size = batch_size;
    c
}

fn addresses(n: usize) -> Vec<String> {
    (0..n).map(|i| format!("10.0.0.{}", i)).collect()
}

#[test]
fn targets_are_address_major_with_exact_count() {
    let addrs = vec!["a".to_string(), "b".to_string()];
    let ports: Vec<u16> = vec![80, 8080];
    let targets: Vec<Target> = build_targets(&addrs, &ports);
    let pairs: Vec<(String, u16)> =
        targets.iter().map(|t| (t.address.clone(), t.port)).collect();
    assert_eq!(
        pairs,
        vec![
            ("a".to_string(), 80),
            ("a".to_string(), 8080),
            ("b".to_string(), 80),
            ("b".to_string(), 8080),
        ]
    );
    // distinct inputs give distinct targets
    for i in 0..pairs.len() {
        for j in i + 1..pairs.len() {
            assert_ne!(pairs[i], pairs[j]);
        }
    }
}

#[test]
fn total_combinations() {
    assert_eq!(calculate_total_combinations(true, 3, true, 4), 12);
    assert_eq!(calculate_total_combinations(false, 3, true, 4), 0);
    assert_eq!(calculate_total_combinations(true, 0, true, 4), 0);
    assert_eq!(calculate_total_combinations(true, 3, true, 0), 0);
}

#[test]
fn server_keys() {
    assert_eq!(server_key("1.2.3.4", 8080), "1.2.3.4:8080");
    assert_eq!(server_key("host", 0), "host:0");
}

#[test]
fn fingerprint_is_case_sensitive_substring_on_server_header() {
    assert!(fingerprint_matches(Some("Astra/1.0.0")));
    assert!(fingerprint_matches(Some("Super Astra Server")));
    assert!(!fingerprint_matches(Some("astra/1.0.0")));
    assert!(!fingerprint_matches(Some("nginx")));
    assert!(!fingerprint_matches(None));
}

#[test]
fn empty_port_list_is_fatal_before_any_probe() {
    let mut c = ScanCoordinator::new(&test_config(5, 100));
    c.begin_loading();
    let r = c.start(&addresses(3), &Vec::new());
    assert_eq!(r, Err(ScanError::EmptyPortList));
    assert_eq!(c.state, ScanState::Finished);
    // zero network calls possible: nothing to dispatch, nothing counted
    assert!(c.next_target().is_none());
    assert_eq!(c.snapshot().checked, 0);
    assert_eq!(c.snapshot().total, 0);
}

#[test]
fn empty_address_list_is_fatal() {
    let mut c = ScanCoordinator::new(&test_config(5, 100));
    let r = c.start(&Vec::new(), &vec![80]);
    assert_eq!(r, Err(ScanError::EmptyAddressList));
    assert_eq!(c.state, ScanState::Finished);
}

#[test]
fn error_messages() {
    assert_eq!(ScanError::EmptyAddressList.message(), "no addresses to scan");
    assert_eq!(ScanError::EmptyPortList.message(), "no ports to scan");
}

#[test]
fn outstanding_probes_never_exceed_limit_under_stress() {
    // 100 addresses x 5 ports = 500 targets, at most 5 in flight.
    let mut c = ScanCoordinator::new(&test_config(5, 50));
    c.begin_loading();
    c.start(&addresses(100), &vec![1, 2, 3, 4, 5]).unwrap();
    let mut in_flight: Vec<Target> = Vec::new();
    let mut max_seen: usize = 0;
    loop {
        // fill until the coordinator withholds a permit
        while let Some(t) = c.next_target() {
            in_flight.push(t);
            assert!(c.outstanding <= 5);
            max_seen = max_seen.max(c.outstanding);
        }
        if in_flight.is_empty() {
            break;
        }
        // complete roughly half of the in-flight probes, out of order
        let keep = in_flight.len() / 2;
        while in_flight.len() > keep {
            let t = in_flight.remove(0);
            c.complete_probe(&t.address, t.port, false);
        }
    }
    assert_eq!(max_seen, 5);
    assert!(c.is_drained());
    assert_eq!(c.snapshot().checked, 500);
    assert_eq!(c.snapshot().servers_found, 0);
}

#[test]
fn duplicate_discovery_is_recorded_once() {
    let mut c = ScanCoordinator::new(&test_config(10, 10));
    c.begin_loading();
    c.start(&addresses(1), &vec![80, 81]).unwrap();
    let t1 = c.next_target().unwrap();
    let t2 = c.next_target().unwrap();
    assert!(c.should_probe(&t1.address, t1.port));
    let first = c.complete_probe(&t1.address, t1.port, true);
    assert_eq!(first.as_deref(), Some("10.0.0.0:80"));
    // the same address:port hit again adds no second record
    assert!(!c.should_probe(&t1.address, t1.port));
    let again = c.complete_probe(&t1.address, t1.port, true);
    assert!(again.is_none());
    assert_eq!(c.found.len(), 1);
    assert_eq!(c.snapshot().servers_found, 1);
    let _ = t2;
}

#[test]
fn end_to_end_four_targets_one_hit() {
    // 2 addresses x 2 ports = 4 targets; one target answers with an
    // Astra server header.
    let addrs = vec!["10.0.0.1".to_string(), "10.0.0.2".to_string()];
    let ports: Vec<u16> = vec![80, 8080];
    let mut c = ScanCoordinator::new(&test_config(4, 4));
    c.begin_loading();
    c.start(&addrs, &ports).unwrap();

    let mut server_sink: Vec<String> = Vec::new();
    while let Some(t) = c.next_target() {
        let header: Option<&str> = if t.address == "10.0.0.2" && t.port == 8080 {
            Some("Astra/1.0.0")
        } else {
            Some("nginx")
        };
        let hit = c.should_probe(&t.address, t.port) && fingerprint_matches(header);
        if let Some(line) = c.complete_probe(&t.address, t.port, hit) {
            server_sink.push(line);
        }
    }
    assert!(c.is_drained());
    let progress = c.snapshot();
    assert_eq!(progress.checked, 4);
    assert_eq!(progress.servers_found, 1);
    assert_eq!(server_sink, vec!["10.0.0.2:8080".to_string()]);

    let summary = c.finish();
    assert_eq!(c.state, ScanState::Finished);
    assert!(summary.contains("\"total_checked\":4"));
    assert!(summary.contains("\"servers_found\":1"));
    assert!(summary.contains("\"found_servers\":[\"10.0.0.2:8080\"]"));
}

#[test]
fn cancel_stops_new_dispatch_and_drains_gracefully() {
    let mut c = ScanCoordinator::new(&test_config(4, 4));
    c.begin_loading();
    c.start(&addresses(2), &vec![80, 81]).unwrap();
    let t = c.next_target().unwrap();
    c.cancel();
    assert_eq!(c.state, ScanState::Draining);
    // no new dispatch, but the in-flight probe still completes
    assert!(c.next_target().is_none());
    assert!(!c.is_drained());
    c.complete_probe(&t.address, t.port, false);
    assert!(c.is_drained());
    let summary = c.finish();
    assert_eq!(c.snapshot().checked, 1);
    assert!(summary.contains("\"total_checked\":1"));
}

#[test]
fn server_records_carry_their_key() {
    let s = Server::new("1.2.3.4".to_string(), 8080, "http".to_string());
    assert_eq!(s.address, "1.2.3.4");
    assert_eq!(s.port, 8080);
    assert_eq!(s.service, "http");
    assert_eq!(s.key(), "1.2.3.4:8080");
}

#[test]
fn simple_scanner_lifecycle() {
    let mut s = SimpleScanner::new(SimpleScannerConfig::default());
    assert!(!s.is_running());
    assert_eq!(s.get_progress(), 0);
    s.start();
    assert!(s.is_running());
    s.set_progress(40);
    assert_eq!(s.get_progress(), 40);
    s.add_server(Server::new("1.2.3.4".to_string(), 80, "http".to_string()));
    assert_eq!(s.get_servers().len(), 1);
    s.stop();
    assert!(!s.is_running());
    assert_eq!(s.get_progress(), 40);
    s.clear_servers();
    assert!(s.get_servers().is_empty());
    s.update_config(SimpleScannerConfig { threads: 8, timeout_secs: 2 });
    assert_eq!(s.config.threads, 8);
}

#[test]
fn dispatch_stops_at_draining_and_after_finish() {
    let mut c = ScanCoordinator::new(&test_config(8, 8));
    c.begin_loading();
    c.start(&addresses(1), &vec![80]).unwrap();
    let t = c.next_target().unwrap();
    assert_eq!(c.state, ScanState::Draining);
    assert!(c.next_target().is_none());
    c.complete_probe(&t.address, t.port, false);
    let _ = c.finish();
    assert!(c.next_target().is_none());
}
