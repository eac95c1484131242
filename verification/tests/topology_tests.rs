use netspectre_core::models::{Host, TopoEdge};
use netspectre_core::topology::{
    build, classify, classify_node, group_by_subnet, is_likely_gateway, subnet_key, NodeKind,
};

fn make_host(ip: &str, vendor: &str, ports: Vec<u16>) -> Host {
    Host {
        ip: ip.to_string(),
        mac: "".to_string(),
        hostname: "".to_string(),
        vendor: vendor.to_string(),
        os: "".to_string(),
        ports,
    }
}

fn triples(edges: &[TopoEdge]) -> Vec<(String, String, String)> {
    edges.iter().map(|e| (e.source.clone(), e.target.clone(), e.evidence.clone())).collect()
}

fn triple(a: &str, b: &str, tag: &str) -> (String, String, String) {
    (a.to_string(), b.to_string(), tag.to_string())
}

#[test]
fn test_gateway_classification() {
    let hosts = vec![make_host("192.168.1.1", "", vec![80, 443])];
    let result = build(&hosts);
    assert_eq!(result.nodes.len(), 1);
    assert_eq!(result.nodes[0].node_type, "router");
}

#[test]
fn test_server_classification() {
    let hosts = vec![make_host("192.168.1.50", "", vec![80, 443, 22])];
    let result = build(&hosts);
    assert_eq!(result.nodes[0].node_type, "server");
}

#[test]
fn test_workstation_classification() {
    let hosts = vec![make_host("192.168.1.50", "", vec![3389])];
    let result = build(&hosts);
    assert_eq!(result.nodes[0].node_type, "workstation");
}

#[test]
fn test_iot_classification() {
    let hosts = vec![make_host("192.168.1.50", "Espressif Inc.", vec![])];
    let result = build(&hosts);
    assert_eq!(result.nodes[0].node_type, "iot");
}

#[test]
fn test_vendor_router_classification() {
    let hosts = vec![make_host("192.168.1.50", "Cisco Systems", vec![])];
    let result = build(&hosts);
    assert_eq!(result.nodes[0].node_type, "router");
}

#[test]
fn test_same_subnet_edges() {
    let hosts = vec![
        make_host("192.168.1.1", "", vec![]),
        make_host("192.168.1.2", "", vec![]),
        make_host("192.168.1.3", "", vec![]),
    ];
    let result = build(&hosts);
    assert_eq!(result.nodes.len(), 3);
    let same_subnet_edges: Vec<_> =
        result.edges.iter().filter(|e| e.evidence == "same-subnet").collect();
    assert_eq!(same_subnet_edges.len(), 3);
}

#[test]
fn test_cross_subnet_no_edges() {
    let hosts = vec![make_host("192.168.1.50", "", vec![]), make_host("10.0.0.50", "", vec![])];
    let result = build(&hosts);
    let same_subnet_edges: Vec<_> =
        result.edges.iter().filter(|e| e.evidence == "same-subnet").collect();
    assert_eq!(same_subnet_edges.len(), 0);
}

#[test]
fn test_gateway_edges() {
    let hosts = vec![make_host("192.168.1.1", "", vec![]), make_host("192.168.1.50", "", vec![])];
    let result = build(&hosts);
    let gateway_edges: Vec<_> = result.edges.iter().filter(|e| e.evidence == "gateway").collect();
    assert_eq!(gateway_edges.len(), 1);
}

#[test]
fn test_empty_hosts() {
    let result = build(&[]);
    assert!(result.nodes.is_empty());
    assert!(result.edges.is_empty());
}

#[test]
fn test_hostname_label() {
    let mut host = make_host("192.168.1.50", "", vec![]);
    host.hostname = "myserver.local".to_string();
    let result = build(&[host]);
    assert_eq!(result.nodes[0].label, "myserver.local");
}

#[test]
fn test_unknown_hostname_uses_ip() {
    let mut host = make_host("192.168.1.50", "", vec![]);
    host.hostname = "Unknown".to_string();
    let result = build(&[host]);
    assert_eq!(result.nodes[0].label, "192.168.1.50");
}

#[test]
fn empty_hostname_uses_ip() {
    let result = build(&[make_host("192.168.1.50", "", vec![])]);
    assert_eq!(result.nodes[0].label, "192.168.1.50");
}

#[test]
fn one_router_among_three_gives_three_pairs_and_two_gateway_edges() {
    let hosts = vec![
        make_host("192.168.1.1", "", vec![]),
        make_host("192.168.1.2", "", vec![]),
        make_host("192.168.1.3", "", vec![]),
    ];
    let result = build(&hosts);
    assert_eq!(
        triples(&result.edges),
        vec![
            triple("192.168.1.1", "192.168.1.2", "same-subnet"),
            triple("192.168.1.1", "192.168.1.3", "same-subnet"),
            triple("192.168.1.2", "192.168.1.3", "same-subnet"),
            triple("192.168.1.1", "192.168.1.2", "gateway"),
            triple("192.168.1.1", "192.168.1.3", "gateway"),
        ]
    );
}

#[test]
fn two_routers_share_one_gateway_edge() {
    let hosts = vec![
        make_host("10.0.0.254", "", vec![]),
        make_host("10.0.0.7", "", vec![]),
        make_host("10.0.0.1", "", vec![]),
    ];
    let result = build(&hosts);
    let gateway: Vec<_> =
        triples(&result.edges).into_iter().filter(|e| e.2 == "gateway").collect();
    assert_eq!(
        gateway,
        vec![
            triple("10.0.0.254", "10.0.0.7", "gateway"),
            triple("10.0.0.254", "10.0.0.1", "gateway"),
            triple("10.0.0.1", "10.0.0.7", "gateway"),
        ]
    );
}

#[test]
fn a_router_by_vendor_gets_gateway_edges() {
    let hosts = vec![
        make_host("10.0.0.7", "", vec![]),
        make_host("10.0.0.9", "MikroTik", vec![]),
    ];
    let result = build(&hosts);
    assert_eq!(result.nodes[1].node_type, "router");
    assert_eq!(
        triples(&result.edges),
        vec![
            triple("10.0.0.7", "10.0.0.9", "same-subnet"),
            triple("10.0.0.9", "10.0.0.7", "gateway"),
        ]
    );
}

#[test]
fn groups_stand_in_order_of_first_appearance() {
    let hosts = vec![
        make_host("10.0.1.5", "", vec![]),
        make_host("10.0.0.5", "", vec![]),
        make_host("10.0.1.6", "", vec![]),
        make_host("10.0.0.6", "", vec![]),
        make_host("not-an-address", "", vec![]),
        make_host("10.0.0", "", vec![]),
    ];
    let groups = group_by_subnet(&hosts);
    assert_eq!(groups.len(), 2);
    assert_eq!(groups[0].subnet, "10.0.1.");
    assert_eq!(groups[0].members, vec![0, 2]);
    assert_eq!(groups[1].subnet, "10.0.0.");
    assert_eq!(groups[1].members, vec![1, 3]);
    let result = build(&hosts);
    assert_eq!(result.nodes.len(), 6);
    assert_eq!(
        triples(&result.edges),
        vec![
            triple("10.0.1.5", "10.0.1.6", "same-subnet"),
            triple("10.0.0.5", "10.0.0.6", "same-subnet"),
        ]
    );
}

#[test]
fn a_malformed_address_gives_a_node_and_no_edge() {
    let hosts = vec![
        make_host("10.0.0", "", vec![]),
        make_host("10.0.0", "", vec![]),
        make_host("10.0.0.0.1", "", vec![]),
        make_host("", "", vec![]),
    ];
    let result = build(&hosts);
    assert_eq!(result.nodes.len(), 4);
    assert!(result.edges.is_empty());
    assert_eq!(result.nodes[3].id, "");
    for node in &result.nodes {
        assert_eq!(node.node_type, "unknown");
    }
}

#[test]
fn node_carries_the_record_of_its_host() {
    let mut host = make_host("172.16.0.9", "Acme", vec![8443, 1]);
    host.os = "Linux".to_string();
    host.hostname = "box".to_string();
    let result = build(&[host, make_host("172.16.0.10", "", vec![])]);
    assert_eq!(result.nodes.len(), 2);
    assert_eq!(result.nodes[0].id, "172.16.0.9");
    assert_eq!(result.nodes[0].label, "box");
    assert_eq!(result.nodes[0].node_type, "server");
    assert_eq!(result.nodes[0].ports, vec![8443, 1]);
    assert_eq!(result.nodes[0].os, "Linux");
    assert_eq!(result.nodes[1].id, "172.16.0.10");
    assert_eq!(result.nodes[1].node_type, "unknown");
}

#[test]
fn gateway_addresses() {
    assert!(is_likely_gateway("192.168.1.1"));
    assert!(is_likely_gateway("192.168.1.254"));
    assert!(is_likely_gateway("10.0.0.001"));
    assert!(is_likely_gateway("10.0.0.+1"));
    assert!(is_likely_gateway("a.b.c.254"));
    assert!(is_likely_gateway("192.168.1.0000000000000000000001"));
    assert!(!is_likely_gateway("192.168.1.2"));
    assert!(!is_likely_gateway("192.168.1.1 "));
    assert!(!is_likely_gateway("192.168.1."));
    assert!(!is_likely_gateway("192.168.1.-1"));
    assert!(!is_likely_gateway("192.168.1.+"));
    assert!(!is_likely_gateway("192.168.1.1254"));
    assert!(!is_likely_gateway("192.168.1.0000000000000000000001x"));
    assert!(!is_likely_gateway(""));
}

#[test]
fn an_address_without_four_parts_is_no_gateway() {
    assert!(!is_likely_gateway("1"));
    assert!(!is_likely_gateway("254"));
    assert!(!is_likely_gateway("x.254"));
    assert!(!is_likely_gateway("10.0.1"));
    assert!(!is_likely_gateway("10.0.254"));
    assert!(!is_likely_gateway("10.0.0.0.1"));
    assert!(!is_likely_gateway("10.0.0.1.254"));
    assert_eq!(classify_node(&make_host("10.0.1", "", vec![])), "unknown");
    assert_eq!(classify_node(&make_host("10.0.0.0.254", "", vec![])), "unknown");
    assert_eq!(classify_node(&make_host("1", "", vec![])), "unknown");
    assert_eq!(classify_node(&make_host("10.0.1", "", vec![80])), "server");
    assert_eq!(classify_node(&make_host("10.0.1", "Cisco", vec![])), "router");
    let result = build(&[make_host("10.0.1", "", vec![]), make_host("10.0.254", "", vec![])]);
    assert_eq!(result.nodes.len(), 2);
    assert_eq!(result.nodes[0].node_type, "unknown");
    assert_eq!(result.nodes[1].node_type, "unknown");
    assert!(result.edges.is_empty());
}

#[test]
fn subnet_keys() {
    assert_eq!(subnet_key("192.168.1.77"), Some("192.168.1.".to_string()));
    assert_eq!(subnet_key("a.b.c.d"), Some("a.b.c.".to_string()));
    assert_eq!(subnet_key("..."), Some("...".to_string()));
    assert_eq!(subnet_key("192.168.1"), None);
    assert_eq!(subnet_key("1.2.3.4.5"), None);
    assert_eq!(subnet_key(""), None);
}

#[test]
fn classification_rules_apply_in_order() {
    assert_eq!(classify(true, "espressif", &vec![80]), NodeKind::Router);
    assert_eq!(classify(false, "tp-link technologies", &vec![80]), NodeKind::Router);
    assert_eq!(classify(false, "espressif inc.", &vec![22, 27017]), NodeKind::Server);
    assert_eq!(classify(false, "espressif inc.", &vec![22]), NodeKind::Iot);
    assert_eq!(classify(false, "acme", &vec![5900]), NodeKind::Workstation);
    assert_eq!(classify(false, "boring", &vec![5900]), NodeKind::Iot);
    assert_eq!(classify(false, "intel", &vec![135, 445]), NodeKind::Unknown);
    assert_eq!(classify(false, "", &vec![]), NodeKind::Unknown);
    for p in [53u16, 80, 443, 8080, 8443, 25, 993, 995, 3306, 5432, 27017] {
        assert_eq!(classify(false, "", &vec![1, p]), NodeKind::Server);
    }
    for v in ["cisco", "ubiquiti", "juniper", "mikrotik", "netgear", "tp-link"] {
        assert_eq!(classify(false, v, &vec![]), NodeKind::Router);
    }
    for v in [
        "nest", "ring", "wyze", "sonos", "philips", "ecobee", "chamberlain", "espressif", "tuya",
        "shenzhen",
    ] {
        assert_eq!(classify(false, v, &vec![]), NodeKind::Iot);
    }
}

#[test]
fn vendor_is_matched_without_regard_to_case() {
    assert_eq!(classify_node(&make_host("10.0.0.9", "UBIQUITI Networks", vec![])), "router");
    assert_eq!(classify_node(&make_host("10.0.0.9", "Shenzhen Tuya", vec![])), "iot");
    assert_eq!(classify_node(&make_host("10.0.0.9", "", vec![22])), "workstation");
}
