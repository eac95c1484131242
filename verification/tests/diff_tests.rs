use netspectre_core::diff::compute_diff;
use netspectre_core::models::{Baseline, BaselineMeta, Host};

fn make_host(ip: &str, ports: Vec<u16>) -> Host {
    Host {
        ip: ip.to_string(),
        mac: "00:00:00:00:00:00".to_string(),
        hostname: "".to_string(),
        vendor: "".to_string(),
        os: "".to_string(),
        ports,
    }
}

fn make_baseline(hosts: Vec<Host>) -> Baseline {
    Baseline {
        meta: BaselineMeta {
            id: "test-id".to_string(),
            label: "test".to_string(),
            timestamp: "2025-01-01T00:00:00Z".to_string(),
            host_count: hosts.len(),
        },
        hosts,
    }
}

fn ips(hosts: &[Host]) -> Vec<String> {
    hosts.iter().map(|h| h.ip.clone()).collect()
}

#[test]
fn test_no_changes() {
    let hosts = vec![make_host("192.168.1.1", vec![22, 80])];
    let baseline = make_baseline(hosts.clone());
    let diff = compute_diff(&baseline, &hosts);

    assert!(diff.new_hosts.is_empty());
    assert!(diff.missing_hosts.is_empty());
    assert!(diff.port_changes.is_empty());
    assert_eq!(diff.summary_stats.total_new, 0);
}

#[test]
fn test_new_host() {
    let baseline = make_baseline(vec![make_host("192.168.1.1", vec![22])]);
    let current = vec![
        make_host("192.168.1.1", vec![22]),
        make_host("192.168.1.2", vec![80]),
    ];
    let diff = compute_diff(&baseline, &current);

    assert_eq!(diff.new_hosts.len(), 1);
    assert_eq!(diff.new_hosts[0].ip, "192.168.1.2");
    assert_eq!(diff.summary_stats.total_new, 1);
}

#[test]
fn test_missing_host() {
    let baseline = make_baseline(vec![
        make_host("192.168.1.1", vec![22]),
        make_host("192.168.1.2", vec![80]),
    ]);
    let current = vec![make_host("192.168.1.1", vec![22])];
    let diff = compute_diff(&baseline, &current);

    assert_eq!(diff.missing_hosts.len(), 1);
    assert_eq!(diff.missing_hosts[0].ip, "192.168.1.2");
    assert_eq!(diff.summary_stats.total_missing, 1);
}

#[test]
fn test_port_changes() {
    let baseline = make_baseline(vec![make_host("192.168.1.1", vec![22, 80])]);
    let current = vec![make_host("192.168.1.1", vec![22, 443])];
    let diff = compute_diff(&baseline, &current);

    assert_eq!(diff.port_changes.len(), 1);
    let change = &diff.port_changes[0];
    assert_eq!(change.ip, "192.168.1.1");
    assert!(change.added_ports.contains(&443));
    assert!(change.removed_ports.contains(&80));
}

#[test]
fn test_empty_baseline() {
    let baseline = make_baseline(vec![]);
    let current = vec![make_host("192.168.1.1", vec![22])];
    let diff = compute_diff(&baseline, &current);

    assert_eq!(diff.new_hosts.len(), 1);
    assert!(diff.missing_hosts.is_empty());
}

#[test]
fn test_empty_current() {
    let baseline = make_baseline(vec![make_host("192.168.1.1", vec![22])]);
    let current: Vec<Host> = vec![];
    let diff = compute_diff(&baseline, &current);

    assert!(diff.new_hosts.is_empty());
    assert_eq!(diff.missing_hosts.len(), 1);
}

#[test]
fn test_combined_changes() {
    let baseline = make_baseline(vec![
        make_host("192.168.1.1", vec![22, 80]),
        make_host("192.168.1.2", vec![443]),
    ]);
    let current = vec![
        make_host("192.168.1.1", vec![22, 80, 8080]),
        make_host("192.168.1.3", vec![3389]),
    ];
    let diff = compute_diff(&baseline, &current);

    assert_eq!(diff.new_hosts.len(), 1);
    assert_eq!(diff.missing_hosts.len(), 1);
    assert_eq!(diff.port_changes.len(), 1);
}

#[test]
fn port_change_lists_exactly_the_gained_and_lost_ports() {
    let baseline = make_baseline(vec![make_host("192.168.1.1", vec![22, 80])]);
    let current = vec![make_host("192.168.1.1", vec![22, 443])];
    let diff = compute_diff(&baseline, &current);

    assert_eq!(diff.port_changes.len(), 1);
    assert_eq!(diff.port_changes[0].added_ports, vec![443]);
    assert_eq!(diff.port_changes[0].removed_ports, vec![80]);
    assert_eq!(diff.summary_stats.total_port_changes, 1);
    assert_eq!(diff.summary_stats.total_banner_changes, 0);
    assert_eq!(diff.summary_stats.total_tls_changes, 0);
    assert!(diff.banner_changes.is_empty());
    assert!(diff.tls_changes.is_empty());
}

#[test]
fn output_lists_are_sorted_by_address_and_port() {
    let baseline = make_baseline(vec![
        make_host("10.0.0.9", vec![1]),
        make_host("10.0.0.3", vec![9, 7, 7, 8]),
        make_host("10.0.0.1", vec![1]),
        make_host("10.0.0.5", vec![5]),
    ]);
    let current = vec![
        make_host("10.0.0.8", vec![]),
        make_host("10.0.0.5", vec![6, 2, 4]),
        make_host("10.0.0.2", vec![]),
        make_host("10.0.0.3", vec![300, 100, 200, 100]),
        make_host("10.0.0.10", vec![]),
    ];
    let diff = compute_diff(&baseline, &current);

    assert_eq!(ips(&diff.new_hosts), vec!["10.0.0.10", "10.0.0.2", "10.0.0.8"]);
    assert_eq!(ips(&diff.missing_hosts), vec!["10.0.0.1", "10.0.0.9"]);
    assert_eq!(diff.port_changes.len(), 2);
    assert_eq!(diff.port_changes[0].ip, "10.0.0.3");
    assert_eq!(diff.port_changes[0].added_ports, vec![100, 200, 300]);
    assert_eq!(diff.port_changes[0].removed_ports, vec![7, 8, 9]);
    assert_eq!(diff.port_changes[1].ip, "10.0.0.5");
    assert_eq!(diff.port_changes[1].added_ports, vec![2, 4, 6]);
    assert_eq!(diff.port_changes[1].removed_ports, vec![5]);
    assert_eq!(diff.summary_stats.total_new, 3);
    assert_eq!(diff.summary_stats.total_missing, 2);
    assert_eq!(diff.summary_stats.total_port_changes, 2);
}

#[test]
fn port_order_and_repetition_are_no_change() {
    let baseline = make_baseline(vec![make_host("10.0.0.1", vec![80, 22, 22])]);
    let current = vec![make_host("10.0.0.1", vec![22, 80, 80])];
    let diff = compute_diff(&baseline, &current);
    assert!(diff.port_changes.is_empty());
}

#[test]
fn last_record_of_a_repeated_address_wins() {
    let baseline = make_baseline(vec![
        make_host("10.0.0.1", vec![1]),
        make_host("10.0.0.1", vec![2]),
    ]);
    let mut late = make_host("10.0.0.7", vec![9]);
    late.hostname = "late".to_string();
    let current = vec![make_host("10.0.0.7", vec![8]), late, make_host("10.0.0.1", vec![2])];
    let diff = compute_diff(&baseline, &current);

    assert!(diff.port_changes.is_empty());
    assert_eq!(diff.new_hosts.len(), 1);
    assert_eq!(diff.new_hosts[0].hostname, "late");
    assert_eq!(diff.new_hosts[0].ports, vec![9]);
}

#[test]
fn diff_of_a_snapshot_with_itself_is_empty() {
    let hosts = vec![
        make_host("10.0.0.2", vec![22, 80]),
        make_host("10.0.0.1", vec![]),
        make_host("10.0.0.2", vec![443]),
    ];
    let baseline = make_baseline(hosts.clone());
    let diff = compute_diff(&baseline, &hosts);
    assert!(diff.new_hosts.is_empty());
    assert!(diff.missing_hosts.is_empty());
    assert!(diff.port_changes.is_empty());
    assert_eq!(diff.summary_stats.total_new, 0);
    assert_eq!(diff.summary_stats.total_missing, 0);
    assert_eq!(diff.summary_stats.total_port_changes, 0);
    assert_eq!(diff.summary_stats.total_banner_changes, 0);
    assert_eq!(diff.summary_stats.total_tls_changes, 0);
}

#[test]
fn new_hosts_one_way_are_missing_hosts_the_other_way() {
    let b = vec![make_host("10.0.0.1", vec![1]), make_host("10.0.0.2", vec![2])];
    let c = vec![make_host("10.0.0.3", vec![3]), make_host("10.0.0.2", vec![2]), make_host("10.0.0.0", vec![])];
    let forward = compute_diff(&make_baseline(b.clone()), &c);
    let backward = compute_diff(&make_baseline(c.clone()), &b);
    assert_eq!(ips(&forward.new_hosts), vec!["10.0.0.0", "10.0.0.3"]);
    assert_eq!(ips(&forward.new_hosts), ips(&backward.missing_hosts));
    assert_eq!(ips(&forward.missing_hosts), ips(&backward.new_hosts));
}
