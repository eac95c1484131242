use netspectre_core::fingerprint::{
    analyze, apply_certificate, apply_ftp, apply_port_heuristic, apply_powered_by, apply_server,
    apply_smtp, apply_ssh, apply_title, apply_tls_marker, try_ftp_fingerprint,
    try_http_fingerprint, try_smtp_fingerprint, try_ssh_fingerprint, try_tls_fingerprint,
};
use netspectre_core::models::{DeepScanPort, Fingerprint, Host};

fn make_port(port: u16, banner: Option<&str>, details: &str) -> DeepScanPort {
    DeepScanPort {
        port,
        service_name: "".to_string(),
        details: details.to_string(),
        vulnerable: false,
        severity: "info".to_string(),
        raw_banner: banner.map(|b| b.to_string()),
    }
}

fn make_host() -> Host {
    Host {
        ip: "192.168.1.1".to_string(),
        mac: "".to_string(),
        hostname: "".to_string(),
        vendor: "".to_string(),
        os: "".to_string(),
        ports: vec![],
    }
}

fn blank(port: u16) -> Fingerprint {
    Fingerprint {
        port,
        protocol: "unknown".to_string(),
        product: "".to_string(),
        version: "".to_string(),
        confidence: 0,
        evidence: Vec::new(),
        tls_cert: None,
        cpe: None,
    }
}

fn certainty(fp: &Fingerprint) -> f64 {
    f64::from(fp.confidence) / 100.0
}

fn one(port: u16, banner: Option<&str>, details: &str) -> Fingerprint {
    let mut results = analyze(&make_host(), &[make_port(port, banner, details)]);
    assert_eq!(results.len(), 1);
    results.remove(0)
}

#[test]
fn test_http_server_header() {
    let ports = vec![make_port(80, Some("HTTP/1.1 200 OK\r\nServer: nginx/1.25.3\r\n"), "")];
    let results = analyze(&make_host(), &ports);
    assert_eq!(results.len(), 1);
    assert_eq!(results[0].protocol, "http");
    assert_eq!(results[0].product, "nginx");
    assert_eq!(results[0].version, "1.25.3");
    assert!(certainty(&results[0]) >= 0.9);
}

#[test]
fn test_ssh_openssh() {
    let ports = vec![make_port(22, Some("SSH-2.0-OpenSSH_8.9p1 Ubuntu-3"), "")];
    let results = analyze(&make_host(), &ports);
    assert_eq!(results[0].protocol, "ssh");
    assert_eq!(results[0].product, "OpenSSH");
    assert_eq!(results[0].version, "8.9p1");
    assert!(certainty(&results[0]) >= 0.9);
}

#[test]
fn test_ssh_dropbear() {
    let ports = vec![make_port(22, Some("SSH-2.0-dropbear_2022.83"), "")];
    let results = analyze(&make_host(), &ports);
    assert_eq!(results[0].product, "Dropbear");
    assert!(certainty(&results[0]) >= 0.9);
}

#[test]
fn test_port_heuristic_fallback() {
    let ports = vec![make_port(3306, None, "")];
    let results = analyze(&make_host(), &ports);
    assert_eq!(results[0].protocol, "mysql");
    assert_eq!(results[0].product, "MySQL");
    assert!(certainty(&results[0]) <= 0.3);
}

#[test]
fn test_unknown_port() {
    let ports = vec![make_port(12345, None, "")];
    let results = analyze(&make_host(), &ports);
    assert_eq!(results[0].protocol, "unknown");
    assert!(certainty(&results[0]) <= 0.1);
}

#[test]
fn test_confidence_cap() {
    let ports = vec![make_port(
        80,
        Some("HTTP/1.1 200 OK\r\nServer: nginx/1.25.3\r\nX-Powered-By: Express\r\n<title>Jenkins</title>"),
        "",
    )];
    let results = analyze(&make_host(), &ports);
    assert!(certainty(&results[0]) <= 0.99);
}

#[test]
fn test_tls_fingerprint() {
    let ports = vec![make_port(
        443,
        None,
        "TLS Service CN=example.com Issuer=Let's Encrypt validTo=2025-12-01",
    )];
    let results = analyze(&make_host(), &ports);
    assert!(results[0].tls_cert.is_some());
    let cert = results[0].tls_cert.as_ref().unwrap();
    assert_eq!(cert.subject, "example.com");
}

#[test]
fn test_multiple_ports() {
    let ports = vec![
        make_port(22, Some("SSH-2.0-OpenSSH_9.0"), ""),
        make_port(80, Some("HTTP/1.1 200 OK\r\nServer: Apache/2.4.52\r\n"), ""),
        make_port(3306, None, ""),
    ];
    let results = analyze(&make_host(), &ports);
    assert_eq!(results.len(), 3);
    assert_eq!(results[0].protocol, "ssh");
    assert_eq!(results[1].protocol, "http");
    assert_eq!(results[2].protocol, "mysql");
}

#[test]
fn http_headers_and_title_add_up() {
    let fp = one(
        80,
        Some("HTTP/1.1 200 OK\r\nServer: nginx/1.25.3\r\nX-Powered-By: Express\r\n<title>Jenkins</title>"),
        "",
    );
    assert_eq!(fp.port, 80);
    assert_eq!(fp.protocol, "http");
    assert_eq!(fp.product, "jenkins");
    assert_eq!(fp.version, "1.25.3");
    assert_eq!(fp.confidence, 95);
    assert_eq!(
        fp.evidence,
        vec!["Server: nginx/1.25.3", "X-Powered-By: Express", "HTML title: Jenkins"]
    );
    assert!(fp.tls_cert.is_none());
    assert!(fp.cpe.is_none());
}

#[test]
fn server_header_of_an_unknown_product() {
    let fp = one(8080, Some("Server:   Boa/0.94.14rc21  \r\n"), "");
    assert_eq!(fp.protocol, "http");
    assert_eq!(fp.product, "Boa/0.94.14rc21");
    assert_eq!(fp.version, "");
    assert_eq!(fp.confidence, 70);
    assert_eq!(fp.evidence, vec!["Server: Boa/0.94.14rc21"]);
}

#[test]
fn known_server_name_is_lowercased() {
    let fp = one(80, Some("server: Microsoft-IIS/10.0"), "");
    assert_eq!(fp.product, "microsoft-iis");
    assert_eq!(fp.version, "10.0");
    assert_eq!(fp.confidence, 90);
    let fp = one(80, Some("Server: Caddy"), "");
    assert_eq!(fp.product, "caddy");
    assert_eq!(fp.version, "");
    assert_eq!(fp.confidence, 90);
}

#[test]
fn powered_by_alone_names_the_product() {
    let fp = one(3000, Some("X-Powered-By: PHP/8.2"), "");
    assert_eq!(fp.protocol, "http");
    assert_eq!(fp.product, "PHP/8.2");
    assert_eq!(fp.confidence, 60);
}

#[test]
fn wordpress_title_raises_to_eighty() {
    let fp = one(80, Some("<html><TITLE> My WordPress Site </TITLE>"), "");
    assert_eq!(fp.protocol, "unknown");
    assert_eq!(fp.product, "wordpress");
    assert_eq!(fp.confidence, 80);
    assert_eq!(fp.evidence, vec!["HTML title: My WordPress Site"]);
}

#[test]
fn a_plain_title_leaves_the_port_table_in_charge() {
    let fp = one(80, Some("<title>Welcome</title>"), "");
    assert_eq!(fp.protocol, "http");
    assert_eq!(fp.product, "HTTP");
    assert_eq!(fp.confidence, 15);
    assert_eq!(fp.evidence, vec!["HTML title: Welcome", "Port heuristic: 80/http"]);
}

#[test]
fn ssh_banner_of_other_software() {
    let fp = one(22, Some("SSH-2.0-libssh_0.9.6"), "");
    assert_eq!(fp.protocol, "ssh");
    assert_eq!(fp.product, "libssh_0.9.6");
    assert_eq!(fp.confidence, 80);
    assert_eq!(fp.evidence, vec!["SSH banner: libssh_0.9.6"]);
}

#[test]
fn dropbear_version_is_read() {
    let fp = one(22, Some("SSH-2.0-dropbear_2022.83"), "");
    assert_eq!(fp.version, "2022.83");
    assert_eq!(fp.confidence, 90);
}

#[test]
fn certificate_details_are_read_from_the_buffer() {
    let fp = one(443, None, "TLS Service CN=example.com Issuer=Let's Encrypt validTo=2025-12-01");
    assert_eq!(fp.protocol, "tls");
    assert_eq!(fp.confidence, 70);
    let cert = fp.tls_cert.as_ref().unwrap();
    assert_eq!(cert.subject, "example.com");
    assert_eq!(cert.issuer, "Let's Encrypt validTo=2025-12-01");
    assert_eq!(cert.valid_from, "");
    assert_eq!(cert.valid_to, "2025-12-01");
    assert_eq!(cert.days_until_expiry, 0);
    assert!(cert.key_size.is_none());
    assert!(cert.signature.is_none());
    assert_eq!(
        fp.evidence,
        vec![
            "TLS CN: example.com",
            "Issuer: Let's Encrypt validTo=2025-12-01",
            "Expires: 2025-12-01"
        ]
    );
}

#[test]
fn certificate_details_in_the_banner_count_too() {
    let fp = one(8443, Some("SSL certificate; Subject: host.example; expires: soon"), "");
    assert_eq!(fp.protocol, "tls");
    let cert = fp.tls_cert.as_ref().unwrap();
    assert_eq!(cert.subject, "host.example");
    assert_eq!(cert.issuer, "");
    assert_eq!(cert.valid_to, "soon");
    assert_eq!(fp.confidence, 70);
}

#[test]
fn a_marker_without_subject_leaves_the_port_table_in_charge() {
    let fp = one(443, None, "TLS handshake failed");
    assert!(fp.tls_cert.is_none());
    assert_eq!(fp.protocol, "https");
    assert_eq!(fp.confidence, 15);
    assert_eq!(fp.evidence, vec!["Port heuristic: 443/https"]);
}

#[test]
fn smtp_greetings() {
    let fp = one(25, Some("220 mail.example.com ESMTP Postfix"), "");
    assert_eq!(fp.protocol, "smtp");
    assert_eq!(fp.product, "Postfix");
    assert_eq!(fp.confidence, 90);
    assert_eq!(fp.evidence, vec!["SMTP banner: mail.example.com ESMTP Postfix"]);
    let fp = one(25, Some("220-mx ESMTP Exim 4.96 ready"), "");
    assert_eq!(fp.product, "Exim");
    assert_eq!(fp.version, "4.96");
    assert_eq!(fp.confidence, 90);
    let fp = one(25, Some("220 ex01 Microsoft ESMTP MAIL Service ready"), "");
    assert_eq!(fp.product, "Microsoft Exchange");
    assert_eq!(fp.confidence, 85);
    let fp = one(25, Some("220 hello there"), "");
    assert_eq!(fp.product, "hello there");
    assert_eq!(fp.confidence, 70);
}

#[test]
fn a_later_detector_overwrites_an_earlier_one() {
    let fp = one(21, Some("220 (vsFTPd 3.0.5)"), "");
    assert_eq!(fp.protocol, "ftp");
    assert_eq!(fp.product, "vsftpd");
    assert_eq!(fp.version, "3.0.5");
    assert_eq!(fp.confidence, 90);
    assert_eq!(
        fp.evidence,
        vec!["SMTP banner: (vsFTPd 3.0.5)", "FTP banner match: FTP"]
    );
    let fp = one(21, Some("220 ProFTPD 1.3.8 Server"), "");
    assert_eq!(fp.product, "ProFTPD");
    assert_eq!(fp.version, "1.3.8");
    let fp = one(21, Some("220 FileZilla Server 1.7"), "");
    assert_eq!(fp.protocol, "ftp");
    assert_eq!(fp.product, "FileZilla");
    assert_eq!(fp.confidence, 70);
}

#[test]
fn nothing_to_go_on_falls_back_to_the_port_table() {
    let table: [(u16, &str, &str, u8); 23] = [
        (21, "ftp", "FTP", 20),
        (22, "ssh", "SSH", 20),
        (23, "telnet", "Telnet", 20),
        (25, "smtp", "SMTP", 20),
        (53, "dns", "DNS", 20),
        (80, "http", "HTTP", 15),
        (110, "pop3", "POP3", 20),
        (143, "imap", "IMAP", 20),
        (443, "https", "HTTPS", 15),
        (445, "smb", "SMB", 25),
        (993, "imaps", "IMAPS", 20),
        (995, "pop3s", "POP3S", 20),
        (1433, "mssql", "Microsoft SQL Server", 30),
        (1723, "pptp", "PPTP VPN", 25),
        (3306, "mysql", "MySQL", 30),
        (3389, "rdp", "RDP", 30),
        (5432, "postgresql", "PostgreSQL", 30),
        (5900, "vnc", "VNC", 25),
        (6379, "redis", "Redis", 30),
        (8080, "http-proxy", "HTTP Proxy", 10),
        (8443, "https-alt", "HTTPS Alt", 10),
        (27017, "mongodb", "MongoDB", 30),
        (0, "unknown", "Unknown", 10),
    ];
    for (port, protocol, product, confidence) in table {
        let fp = one(port, None, "");
        assert_eq!(fp.port, port);
        assert_eq!(fp.protocol, protocol);
        assert_eq!(fp.product, product);
        assert_eq!(fp.version, "");
        assert_eq!(fp.confidence, confidence);
        assert_eq!(fp.evidence, vec![format!("Port heuristic: {}/{}", port, protocol)]);
    }
    let fp = one(65535, Some(""), "");
    assert_eq!(fp.evidence, vec!["Port heuristic: 65535/unknown"]);
}

#[test]
fn confidence_stays_within_bounds() {
    let banners = [
        "HTTP/1.1 200 OK\r\nServer: nginx/1.25.3\r\nX-Powered-By: Express\r\n<title>Grafana</title>",
        "SSH-2.0-OpenSSH_8.9p1",
        "220 mail ESMTP Postfix",
        "220 ftp vsftpd 3",
        "",
        "TLS CN=a Issuer=b",
    ];
    for (i, b) in banners.iter().enumerate() {
        let fp = one(i as u16, Some(b), "Certificate CN=x");
        assert!(fp.confidence <= 99);
        let c = certainty(&fp);
        assert!(0.0 <= c && c <= 0.99);
    }
}

#[test]
fn analyze_of_no_ports_is_empty() {
    assert!(analyze(&make_host(), &[]).is_empty());
}

#[test]
fn apply_server_sets_product_and_confidence() {
    let mut fp = blank(80);
    fp.version = "old".to_string();
    apply_server(&mut fp, "nginx/1.25.3", Some("nginx"), "1.25.3");
    assert_eq!(fp.protocol, "http");
    assert_eq!(fp.product, "nginx");
    assert_eq!(fp.version, "1.25.3");
    assert_eq!(fp.confidence, 90);
    assert_eq!(fp.evidence, vec!["Server: nginx/1.25.3"]);
    let mut fp = blank(80);
    fp.version = "old".to_string();
    apply_server(&mut fp, "thing", None, "ignored");
    assert_eq!(fp.product, "thing");
    assert_eq!(fp.version, "old");
    assert_eq!(fp.confidence, 70);
}

#[test]
fn apply_powered_by_confirms_or_names() {
    let mut fp = blank(80);
    fp.confidence = 70;
    fp.product = "x".to_string();
    apply_powered_by(&mut fp, "Express");
    assert_eq!(fp.confidence, 75);
    assert_eq!(fp.product, "x");
    assert_eq!(fp.protocol, "http");
    let mut fp = blank(80);
    fp.confidence = 90;
    apply_powered_by(&mut fp, "Express");
    assert_eq!(fp.confidence, 95);
    let mut fp = blank(80);
    fp.confidence = 99;
    apply_powered_by(&mut fp, "Express");
    assert_eq!(fp.confidence, 95);
    let mut fp = blank(80);
    fp.confidence = 255;
    apply_powered_by(&mut fp, "Express");
    assert_eq!(fp.confidence, 95);
    let mut fp = blank(80);
    apply_powered_by(&mut fp, "Express");
    assert_eq!(fp.confidence, 60);
    assert_eq!(fp.product, "Express");
    assert_eq!(fp.evidence, vec!["X-Powered-By: Express"]);
}

#[test]
fn apply_title_never_lowers_confidence() {
    let mut fp = blank(80);
    fp.confidence = 95;
    apply_title(&mut fp, "Grafana", "grafana");
    assert_eq!(fp.confidence, 95);
    assert_eq!(fp.product, "grafana");
    let mut fp = blank(80);
    apply_title(&mut fp, "Dashboard [Jenkins]", "dashboard [jenkins]");
    assert_eq!(fp.confidence, 85);
    assert_eq!(fp.product, "jenkins");
    let mut fp = blank(80);
    apply_title(&mut fp, "WordPress and Grafana", "wordpress and grafana");
    assert_eq!(fp.confidence, 80);
    assert_eq!(fp.product, "wordpress");
    let mut fp = blank(80);
    apply_title(&mut fp, "Hello", "hello");
    assert_eq!(fp.confidence, 0);
    assert_eq!(fp.product, "");
    assert_eq!(fp.evidence, vec!["HTML title: Hello"]);
}

#[test]
fn apply_ssh_prefers_openssh() {
    let mut fp = blank(22);
    apply_ssh(&mut fp, "OpenSSH_9.0", Some("9.0"), "dropbear", "1");
    assert_eq!(fp.product, "OpenSSH");
    assert_eq!(fp.version, "9.0");
    assert_eq!(fp.confidence, 95);
    let mut fp = blank(22);
    apply_ssh(&mut fp, "DropBear", None, "dropbear", "");
    assert_eq!(fp.product, "Dropbear");
    assert_eq!(fp.version, "");
    assert_eq!(fp.confidence, 90);
    let mut fp = blank(22);
    apply_ssh(&mut fp, "Thing", None, "thing", "7");
    assert_eq!(fp.product, "Thing");
    assert_eq!(fp.version, "");
    assert_eq!(fp.confidence, 80);
    assert_eq!(fp.protocol, "ssh");
}

#[test]
fn apply_tls_marker_only_names_an_unknown_protocol() {
    let mut fp = blank(443);
    apply_tls_marker(&mut fp);
    assert_eq!(fp.protocol, "tls");
    fp.protocol = "http".to_string();
    apply_tls_marker(&mut fp);
    assert_eq!(fp.protocol, "http");
}

#[test]
fn apply_certificate_fills_the_record() {
    let mut fp = blank(443);
    fp.confidence = 90;
    apply_certificate(&mut fp, "a.example", None, Some("2030"));
    assert_eq!(fp.confidence, 90);
    let cert = fp.tls_cert.as_ref().unwrap();
    assert_eq!(cert.subject, "a.example");
    assert_eq!(cert.issuer, "");
    assert_eq!(cert.valid_to, "2030");
    assert_eq!(fp.evidence, vec!["TLS CN: a.example", "Expires: 2030"]);
}

#[test]
fn apply_smtp_orders_its_rules() {
    let mut fp = blank(25);
    fp.version = "v".to_string();
    apply_smtp(&mut fp, "b", true, Some("4"), true);
    assert_eq!(fp.product, "Postfix");
    assert_eq!(fp.version, "v");
    assert_eq!(fp.confidence, 90);
    let mut fp = blank(25);
    apply_smtp(&mut fp, "b", false, Some(""), true);
    assert_eq!(fp.product, "Exim");
    assert_eq!(fp.version, "");
    let mut fp = blank(25);
    apply_smtp(&mut fp, "b", false, None, true);
    assert_eq!(fp.product, "Microsoft Exchange");
    assert_eq!(fp.confidence, 85);
    let mut fp = blank(25);
    apply_smtp(&mut fp, "b", false, None, false);
    assert_eq!(fp.product, "b");
    assert_eq!(fp.confidence, 70);
    assert_eq!(fp.protocol, "smtp");
    assert_eq!(fp.evidence, vec!["SMTP banner: b"]);
}

#[test]
fn apply_ftp_orders_its_rules() {
    let mut fp = blank(21);
    apply_ftp(&mut fp, "FTP", Some("3.0"), Some("1.3"));
    assert_eq!(fp.product, "vsftpd");
    assert_eq!(fp.version, "3.0");
    let mut fp = blank(21);
    apply_ftp(&mut fp, "FTP", None, Some("1.3"));
    assert_eq!(fp.product, "ProFTPD");
    assert_eq!(fp.version, "1.3");
    assert_eq!(fp.confidence, 90);
    let mut fp = blank(21);
    apply_ftp(&mut fp, "Pure-FTPd", None, None);
    assert_eq!(fp.product, "Pure-FTPd");
    assert_eq!(fp.confidence, 70);
    assert_eq!(fp.protocol, "ftp");
    assert_eq!(fp.evidence, vec!["FTP banner match: Pure-FTPd"]);
}

#[test]
fn apply_port_heuristic_overwrites() {
    let mut fp = blank(6379);
    fp.protocol = "tls".to_string();
    apply_port_heuristic(6379, &mut fp);
    assert_eq!(fp.protocol, "redis");
    assert_eq!(fp.product, "Redis");
    assert_eq!(fp.confidence, 30);
    assert_eq!(fp.evidence, vec!["Port heuristic: 6379/redis"]);
}

#[test]
fn detectors_leave_a_buffer_without_their_signal_alone() {
    let mut fp = blank(1);
    try_http_fingerprint("nothing here", &mut fp);
    try_ssh_fingerprint("SSH-1.99-old", &mut fp);
    try_tls_fingerprint("nothing here", &mut fp);
    try_smtp_fingerprint(" 220 not at the start", &mut fp);
    try_ftp_fingerprint("221 FTP", &mut fp);
    assert_eq!(fp.protocol, "unknown");
    assert_eq!(fp.product, "");
    assert_eq!(fp.confidence, 0);
    assert!(fp.evidence.is_empty());
}

#[test]
fn smtp_greeting_must_be_a_single_line() {
    let mut fp = blank(25);
    try_smtp_fingerprint("220 mail ESMTP\r\n250 ok", &mut fp);
    assert_eq!(fp.protocol, "unknown");
    let mut fp = blank(25);
    try_smtp_fingerprint("220 mail ESMTP", &mut fp);
    assert_eq!(fp.protocol, "smtp");
}

#[test]
fn a_greeting_in_the_details_alone_is_read() {
    let fp = one(25, None, "220 mail.example.com ESMTP Postfix");
    assert_eq!(fp.protocol, "smtp");
    assert_eq!(fp.product, "Postfix");
    assert_eq!(fp.confidence, 90);
    assert_eq!(fp.evidence, vec!["SMTP banner: mail.example.com ESMTP Postfix"]);
    let fp = one(25, Some(""), "220 mail.example.com ESMTP Postfix");
    assert_eq!(fp.product, "Postfix");
    let fp = one(22, None, "SSH-2.0-OpenSSH_9.6");
    assert_eq!(fp.protocol, "ssh");
    assert_eq!(fp.version, "9.6");
}

#[test]
fn details_follow_the_banner_directly() {
    let fp = one(80, Some("Server: ngi"), "nx/1.2\r\n");
    assert_eq!(fp.product, "nginx");
    assert_eq!(fp.version, "1.2");
    assert_eq!(fp.evidence, vec!["Server: nginx/1.2"]);
    let fp = one(22, Some("SSH-2.0-Open"), "SSH_8.0");
    assert_eq!(fp.product, "OpenSSH");
    assert_eq!(fp.version, "8.0");
    assert_eq!(fp.evidence, vec!["SSH banner: OpenSSH_8.0"]);
}

#[test]
fn a_port_that_says_nothing_gets_the_table_entry_alone() {
    for banner in [None, Some("")] {
        let fp = one(5432, banner, "");
        assert_eq!(fp.protocol, "postgresql");
        assert_eq!(fp.product, "PostgreSQL");
        assert_eq!(fp.version, "");
        assert_eq!(fp.confidence, 30);
        assert!(fp.tls_cert.is_none());
        assert!(fp.cpe.is_none());
        assert_eq!(fp.evidence, vec!["Port heuristic: 5432/postgresql"]);
        let c = certainty(&fp);
        assert!(0.1 <= c && c <= 0.3);
    }
}

#[test]
fn detectors_find_nothing_in_an_empty_text() {
    let mut fp = blank(1);
    try_http_fingerprint("", &mut fp);
    try_ssh_fingerprint("", &mut fp);
    try_tls_fingerprint("", &mut fp);
    try_smtp_fingerprint("", &mut fp);
    try_ftp_fingerprint("", &mut fp);
    assert_eq!(fp.protocol, "unknown");
    assert_eq!(fp.product, "");
    assert_eq!(fp.version, "");
    assert_eq!(fp.confidence, 0);
    assert!(fp.evidence.is_empty());
    assert!(fp.tls_cert.is_none());
}
