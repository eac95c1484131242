use netspectre_core::models::{Profile, ERR_INVALID_PARAMS};
use netspectre_core::profiles::{enforce_safe_mode, validate_port_range, ProfileManager};

fn setup() -> ProfileManager {
    ProfileManager::new()
}

fn sample_profile() -> Profile {
    Profile {
        name: "test-profile".to_string(),
        port_range: "1-1024".to_string(),
        timeout: 2000,
        chunk_size: 100,
        banner_grab: true,
        tls_inspect: true,
        security_audit: true,
        safe_mode: false,
        description: "A test profile".to_string(),
    }
}

#[test]
fn test_validate_empty_name() {
    let mgr = setup();
    let mut p = sample_profile();
    p.name = "".to_string();
    let result = mgr.validate(&p);
    assert!(result.is_err());
}

#[test]
fn test_validate_bad_port_range() {
    let mgr = setup();
    let mut p = sample_profile();
    p.port_range = "abc".to_string();
    let result = mgr.validate(&p);
    assert!(result.is_err());
}

#[test]
fn test_validate_port_out_of_bounds() {
    let mgr = setup();
    let mut p = sample_profile();
    p.port_range = "0-70000".to_string();
    let result = mgr.validate(&p);
    assert!(result.is_err());
}

#[test]
fn test_validate_port_range_formats() {
    assert!(validate_port_range("80"));
    assert!(validate_port_range("1-1024"));
    assert!(validate_port_range("21,22,80,443"));
    assert!(validate_port_range("1-1024,8080,8443"));
    assert!(!validate_port_range(""));
    assert!(!validate_port_range("abc"));
    assert!(!validate_port_range("1024-1"));
    assert!(!validate_port_range("99999"));
}

#[test]
fn test_safe_mode_enforcement() {
    let mgr = setup();
    let mut p = sample_profile();
    p.safe_mode = true;
    p.chunk_size = 200;
    p.timeout = 500;
    p.security_audit = true;

    let created = mgr.prepare(p).unwrap();
    assert_eq!(created.chunk_size, 50);
    assert_eq!(created.timeout, 1000);
    assert!(!created.security_audit);
}

#[test]
fn port_range_edges() {
    assert!(validate_port_range("1"));
    assert!(validate_port_range("65535"));
    assert!(validate_port_range("1-65535"));
    assert!(validate_port_range("80, 443"));
    assert!(validate_port_range("80,   443-500"));
    assert!(validate_port_range("00080"));
    assert!(validate_port_range("7-7"));
    assert!(!validate_port_range("0"));
    assert!(!validate_port_range("65536"));
    assert!(!validate_port_range("80,"));
    assert!(!validate_port_range(",80"));
    assert!(!validate_port_range("80 ,443"));
    assert!(!validate_port_range("1-2-3"));
    assert!(!validate_port_range("123456"));
    assert!(!validate_port_range("+80"));
    assert!(!validate_port_range("80-"));
    assert!(!validate_port_range("-80"));
    assert!(!validate_port_range(" 80"));
    assert!(!validate_port_range("1-1024,9-8"));
    assert!(!validate_port_range("\u{0668}\u{0660}"));
}

#[test]
fn a_sound_profile_passes_with_an_empty_list() {
    let mgr = setup();
    let list = mgr.validate(&sample_profile()).unwrap();
    assert!(list.is_empty());
    let mut p = sample_profile();
    p.name = "A".to_string();
    p.timeout = 100;
    p.chunk_size = 500;
    assert!(mgr.validate(&p).is_ok());
    p.name = "a b_c-9".to_string();
    p.timeout = 60000;
    p.chunk_size = 1;
    assert!(mgr.validate(&p).is_ok());
    p.name = "x".repeat(64);
    assert!(mgr.validate(&p).is_ok());
}

#[test]
fn each_fault_has_its_complaint() {
    let mgr = setup();
    let mut p = sample_profile();
    p.name = "".to_string();
    assert_eq!(
        mgr.validate(&p).unwrap_err(),
        (ERR_INVALID_PARAMS, "Name cannot be empty".to_string())
    );
    p.name = "x".repeat(65);
    assert_eq!(mgr.validate(&p).unwrap_err().1, "Name must be 64 characters or less");
    p.name = "\u{00e9}".repeat(33);
    assert_eq!(mgr.validate(&p).unwrap_err().1, "Name must be 64 characters or less");
    p.name = "-test".to_string();
    assert_eq!(
        mgr.validate(&p).unwrap_err().1,
        "Name must start with alphanumeric and contain only alphanumeric, hyphens, underscores, and spaces"
    );
    p.name = "te/st".to_string();
    assert!(mgr.validate(&p).is_err());
    let mut p = sample_profile();
    p.port_range = "".to_string();
    assert_eq!(mgr.validate(&p).unwrap_err().1, "Port range cannot be empty");
    p.port_range = "9-1".to_string();
    assert_eq!(
        mgr.validate(&p).unwrap_err().1,
        "Invalid port range format. Use: single port (80), range (1-1024), or comma-separated (21,22,80,443)"
    );
    let mut p = sample_profile();
    p.timeout = 99;
    assert_eq!(
        mgr.validate(&p).unwrap_err().1,
        "Timeout must be between 100 and 60000 milliseconds"
    );
    p.timeout = 60001;
    assert!(mgr.validate(&p).is_err());
    let mut p = sample_profile();
    p.chunk_size = 0;
    assert_eq!(mgr.validate(&p).unwrap_err().1, "Chunk size must be between 1 and 500");
    p.chunk_size = 501;
    assert!(mgr.validate(&p).is_err());
}

#[test]
fn complaints_are_joined_in_order() {
    let mgr = setup();
    let p = Profile {
        name: "".to_string(),
        port_range: "x".to_string(),
        timeout: 1,
        chunk_size: 0,
        banner_grab: false,
        tls_inspect: false,
        security_audit: false,
        safe_mode: false,
        description: "".to_string(),
    };
    let (code, message) = mgr.validate(&p).unwrap_err();
    assert_eq!(code, -32602);
    assert_eq!(
        message,
        "Name cannot be empty; Invalid port range format. Use: single port (80), range (1-1024), or comma-separated (21,22,80,443); Timeout must be between 100 and 60000 milliseconds; Chunk size must be between 1 and 500"
    );
}

#[test]
fn safe_mode_only_tightens() {
    let mut p = sample_profile();
    p.chunk_size = 50;
    p.timeout = 1000;
    p.security_audit = false;
    enforce_safe_mode(&mut p);
    assert_eq!(p.chunk_size, 50);
    assert_eq!(p.timeout, 1000);
    let mut p = sample_profile();
    p.chunk_size = 10;
    p.timeout = 5000;
    enforce_safe_mode(&mut p);
    assert_eq!(p.chunk_size, 10);
    assert_eq!(p.timeout, 5000);
    assert!(!p.security_audit);
    assert_eq!(p.name, "test-profile");
    assert!(p.banner_grab);
}

#[test]
fn prepare_leaves_a_profile_without_safe_mode_alone() {
    let mgr = setup();
    let mut p = sample_profile();
    p.chunk_size = 200;
    p.timeout = 500;
    let stored = mgr.prepare(p).unwrap();
    assert_eq!(stored.chunk_size, 200);
    assert_eq!(stored.timeout, 500);
    assert!(stored.security_audit);
    let mut bad = sample_profile();
    bad.safe_mode = true;
    bad.timeout = 5;
    assert_eq!(
        mgr.prepare(bad).unwrap_err().1,
        "Timeout must be between 100 and 60000 milliseconds"
    );
}

#[test]
fn profile_file_names() {
    let mgr = setup();
    assert_eq!(mgr.file_name("test-profile"), "test-profile.json");
    assert_eq!(mgr.file_name(""), ".json");
}

#[test]
fn profiles_are_listed_by_name_without_regard_to_case() {
    let mgr = setup();
    let names = ["test-profile", "another-profile", "Beta", "alpha", "beta", "ALPHA"];
    let profiles: Vec<Profile> = names
        .iter()
        .enumerate()
        .map(|(i, n)| {
            let mut p = sample_profile();
            p.name = n.to_string();
            p.timeout = 1000 + i as u32;
            p
        })
        .collect();
    let listed = mgr.arrange(profiles);
    let got: Vec<(String, u32)> = listed.iter().map(|p| (p.name.clone(), p.timeout)).collect();
    assert_eq!(
        got,
        vec![
            ("alpha".to_string(), 1003),
            ("ALPHA".to_string(), 1005),
            ("another-profile".to_string(), 1001),
            ("Beta".to_string(), 1002),
            ("beta".to_string(), 1004),
            ("test-profile".to_string(), 1000),
        ]
    );
    assert!(mgr.arrange(vec![]).is_empty());
}
