//! The records that the analyses consume and produce, each with the
//! mathematical view that the contracts speak of.

use vstd::prelude::*;

verus! {

/// A transport-level parse failure.
pub const ERR_PARSE: i32 = -32700;

/// A request that is not a well-formed call.
pub const ERR_INVALID_REQUEST: i32 = -32600;

/// A call of a method that does not exist.
pub const ERR_METHOD_NOT_FOUND: i32 = -32601;

/// A call with missing or malformed parameters.
pub const ERR_INVALID_PARAMS: i32 = -32602;

/// A failure inside the engine.
pub const ERR_INTERNAL: i32 = -32603;

/// No scan profile of the given name is stored.
pub const ERR_PROFILE_NOT_FOUND: i32 = -1;

/// No baseline of the given identifier is stored.
pub const ERR_BASELINE_NOT_FOUND: i32 = -2;

/// Fingerprinting failed.
pub const ERR_FINGERPRINT_FAILED: i32 = -3;

/// Topology inference failed.
pub const ERR_TOPOLOGY_FAILED: i32 = -4;

/// A stored scan profile.
#[derive(Debug)]
pub struct Profile {
    pub name: String,
    pub port_range: String,
    pub timeout: u32,
    pub chunk_size: u32,
    pub banner_grab: bool,
    pub tls_inspect: bool,
    pub security_audit: bool,
    pub safe_mode: bool,
    pub description: String,
}

/// What a [`Profile`] holds.
pub struct ProfileView {
    pub name: Seq<char>,
    pub port_range: Seq<char>,
    pub timeout: u32,
    pub chunk_size: u32,
    pub banner_grab: bool,
    pub tls_inspect: bool,
    pub security_audit: bool,
    pub safe_mode: bool,
    pub description: Seq<char>,
}

impl View for Profile {
    type V = ProfileView;

    open spec fn view(&self) -> ProfileView {
        ProfileView {
            name: self.name@,
            port_range: self.port_range@,
            timeout: self.timeout,
            chunk_size: self.chunk_size,
            banner_grab: self.banner_grab,
            tls_inspect: self.tls_inspect,
            security_audit: self.security_audit,
            safe_mode: self.safe_mode,
            description: self.description@,
        }
    }
}

impl Clone for Profile {
    fn clone(&self) -> (r: Self)
        ensures
            r@ == self@,
    {
        Profile {
            name: self.name.clone(),
            port_range: self.port_range.clone(),
            timeout: self.timeout,
            chunk_size: self.chunk_size,
            banner_grab: self.banner_grab,
            tls_inspect: self.tls_inspect,
            security_audit: self.security_audit,
            safe_mode: self.safe_mode,
            description: self.description.clone(),
        }
    }
}

/// The views of a sequence of profiles, in order.
pub open spec fn profile_views(profiles: Seq<Profile>) -> Seq<ProfileView> {
    Seq::new(profiles.len(), |i: int| profiles[i]@)
}

/// One host of an inventory. Within a snapshot the address is the key.
#[derive(Debug)]
pub struct Host {
    pub ip: String,
    pub mac: String,
    pub hostname: String,
    pub vendor: String,
    pub os: String,
    pub ports: Vec<u16>,
}

/// What a [`Host`] holds.
pub struct HostView {
    pub ip: Seq<char>,
    pub mac: Seq<char>,
    pub hostname: Seq<char>,
    pub vendor: Seq<char>,
    pub os: Seq<char>,
    pub ports: Seq<u16>,
}

impl View for Host {
    type V = HostView;

    open spec fn view(&self) -> HostView {
        HostView {
            ip: self.ip@,
            mac: self.mac@,
            hostname: self.hostname@,
            vendor: self.vendor@,
            os: self.os@,
            ports: self.ports@,
        }
    }
}

impl Clone for Host {
    fn clone(&self) -> (r: Self)
        ensures
            r@ == self@,
    {
        Host {
            ip: self.ip.clone(),
            mac: self.mac.clone(),
            hostname: self.hostname.clone(),
            vendor: self.vendor.clone(),
            os: self.os.clone(),
            ports: self.ports.clone(),
        }
    }
}

/// The views of a sequence of hosts, in order.
pub open spec fn host_views(hosts: Seq<Host>) -> Seq<HostView> {
    Seq::new(hosts.len(), |i: int| hosts[i]@)
}

/// What a deep scan found on one port.
#[derive(Debug)]
pub struct DeepScanPort {
    pub port: u16,
    pub service_name: String,
    pub details: String,
    pub vulnerable: bool,
    pub severity: String,
    pub raw_banner: Option<String>,
}

/// What a [`DeepScanPort`] holds.
pub struct DeepScanPortView {
    pub port: u16,
    pub service_name: Seq<char>,
    pub details: Seq<char>,
    pub vulnerable: bool,
    pub severity: Seq<char>,
    pub raw_banner: Option<Seq<char>>,
}

/// The characters of an optional string.
pub open spec fn opt_text(s: Option<String>) -> Option<Seq<char>> {
    match s {
        Some(t) => Some(t@),
        None => None,
    }
}

impl View for DeepScanPort {
    type V = DeepScanPortView;

    open spec fn view(&self) -> DeepScanPortView {
        DeepScanPortView {
            port: self.port,
            service_name: self.service_name@,
            details: self.details@,
            vulnerable: self.vulnerable,
            severity: self.severity@,
            raw_banner: opt_text(self.raw_banner),
        }
    }
}

impl Clone for DeepScanPort {
    fn clone(&self) -> (r: Self)
        ensures
            r@ == self@,
    {
        DeepScanPort {
            port: self.port,
            service_name: self.service_name.clone(),
            details: self.details.clone(),
            vulnerable: self.vulnerable,
            severity: self.severity.clone(),
            raw_banner: match &self.raw_banner {
                Some(b) => Some(b.clone()),
                None => None,
            },
        }
    }
}

/// What identifies a stored baseline.
#[derive(Debug)]
pub struct BaselineMeta {
    pub id: String,
    pub label: String,
    pub timestamp: String,
    pub host_count: usize,
}

/// What a [`BaselineMeta`] holds.
pub struct BaselineMetaView {
    pub id: Seq<char>,
    pub label: Seq<char>,
    pub timestamp: Seq<char>,
    pub host_count: usize,
}

impl View for BaselineMeta {
    type V = BaselineMetaView;

    open spec fn view(&self) -> BaselineMetaView {
        BaselineMetaView {
            id: self.id@,
            label: self.label@,
            timestamp: self.timestamp@,
            host_count: self.host_count,
        }
    }
}

impl Clone for BaselineMeta {
    fn clone(&self) -> (r: Self)
        ensures
            r@ == self@,
    {
        BaselineMeta {
            id: self.id.clone(),
            label: self.label.clone(),
            timestamp: self.timestamp.clone(),
            host_count: self.host_count,
        }
    }
}

/// The views of a sequence of baseline records, in order.
pub open spec fn meta_views(metas: Seq<BaselineMeta>) -> Seq<BaselineMetaView> {
    Seq::new(metas.len(), |i: int| metas[i]@)
}

/// A host inventory captured at one point in time.
#[derive(Debug)]
pub struct Baseline {
    pub meta: BaselineMeta,
    pub hosts: Vec<Host>,
}

/// The ports that one address gained and lost between two snapshots.
#[derive(Debug)]
pub struct PortChange {
    pub ip: String,
    pub added_ports: Vec<u16>,
    pub removed_ports: Vec<u16>,
}

/// What a [`PortChange`] holds.
pub struct PortChangeView {
    pub ip: Seq<char>,
    pub added_ports: Seq<u16>,
    pub removed_ports: Seq<u16>,
}

impl View for PortChange {
    type V = PortChangeView;

    open spec fn view(&self) -> PortChangeView {
        PortChangeView {
            ip: self.ip@,
            added_ports: self.added_ports@,
            removed_ports: self.removed_ports@,
        }
    }
}

/// The views of a sequence of port changes, in order.
pub open spec fn port_change_views(changes: Seq<PortChange>) -> Seq<PortChangeView> {
    Seq::new(changes.len(), |i: int| changes[i]@)
}

/// A banner that differs between two deep scans of one port.
#[derive(Debug)]
pub struct BannerChange {
    pub ip: String,
    pub port: u16,
    pub old_banner: String,
    pub new_banner: String,
}

/// A certificate field that differs between two deep scans of one port.
#[derive(Debug)]
pub struct TlsChange {
    pub ip: String,
    pub port: u16,
    pub field: String,
    pub old_value: String,
    pub new_value: String,
}

/// How many entries each list of a [`DiffResult`] has.
#[derive(Debug, Clone, Copy, PartialEq, Eq, Structural)]
pub struct DiffSummary {
    pub total_new: usize,
    pub total_missing: usize,
    pub total_port_changes: usize,
    pub total_banner_changes: usize,
    pub total_tls_changes: usize,
}

/// The difference between a baseline and a current inventory.
#[derive(Debug)]
pub struct DiffResult {
    pub new_hosts: Vec<Host>,
    pub missing_hosts: Vec<Host>,
    pub port_changes: Vec<PortChange>,
    pub banner_changes: Vec<BannerChange>,
    pub tls_changes: Vec<TlsChange>,
    pub summary_stats: DiffSummary,
}

/// What a [`BannerChange`] holds.
pub struct BannerChangeView {
    pub ip: Seq<char>,
    pub port: u16,
    pub old_banner: Seq<char>,
    pub new_banner: Seq<char>,
}

impl View for BannerChange {
    type V = BannerChangeView;

    open spec fn view(&self) -> BannerChangeView {
        BannerChangeView {
            ip: self.ip@,
            port: self.port,
            old_banner: self.old_banner@,
            new_banner: self.new_banner@,
        }
    }
}

/// What a [`TlsChange`] holds.
pub struct TlsChangeView {
    pub ip: Seq<char>,
    pub port: u16,
    pub field: Seq<char>,
    pub old_value: Seq<char>,
    pub new_value: Seq<char>,
}

impl View for TlsChange {
    type V = TlsChangeView;

    open spec fn view(&self) -> TlsChangeView {
        TlsChangeView {
            ip: self.ip@,
            port: self.port,
            field: self.field@,
            old_value: self.old_value@,
            new_value: self.new_value@,
        }
    }
}

/// What a [`DiffResult`] holds.
pub struct DiffResultView {
    pub new_hosts: Seq<HostView>,
    pub missing_hosts: Seq<HostView>,
    pub port_changes: Seq<PortChangeView>,
    pub banner_changes: Seq<BannerChangeView>,
    pub tls_changes: Seq<TlsChangeView>,
    pub summary_stats: DiffSummary,
}

impl View for DiffResult {
    type V = DiffResultView;

    open spec fn view(&self) -> DiffResultView {
        DiffResultView {
            new_hosts: host_views(self.new_hosts@),
            missing_hosts: host_views(self.missing_hosts@),
            port_changes: port_change_views(self.port_changes@),
            banner_changes: Seq::new(
                self.banner_changes@.len(),
                |i: int| self.banner_changes@[i]@,
            ),
            tls_changes: Seq::new(self.tls_changes@.len(), |i: int| self.tls_changes@[i]@),
            summary_stats: self.summary_stats,
        }
    }
}

/// What a certificate said of itself.
#[derive(Debug)]
pub struct TlsCertInfo {
    pub subject: String,
    pub issuer: String,
    pub valid_from: String,
    pub valid_to: String,
    pub days_until_expiry: i64,
    pub key_size: Option<String>,
    pub signature: Option<String>,
}

/// What a [`TlsCertInfo`] holds.
pub struct TlsCertInfoView {
    pub subject: Seq<char>,
    pub issuer: Seq<char>,
    pub valid_from: Seq<char>,
    pub valid_to: Seq<char>,
    pub days_until_expiry: i64,
    pub key_size: Option<Seq<char>>,
    pub signature: Option<Seq<char>>,
}

impl View for TlsCertInfo {
    type V = TlsCertInfoView;

    open spec fn view(&self) -> TlsCertInfoView {
        TlsCertInfoView {
            subject: self.subject@,
            issuer: self.issuer@,
            valid_from: self.valid_from@,
            valid_to: self.valid_to@,
            days_until_expiry: self.days_until_expiry,
            key_size: opt_text(self.key_size),
            signature: opt_text(self.signature),
        }
    }
}

/// The view of an optional certificate record.
pub open spec fn opt_cert(c: Option<TlsCertInfo>) -> Option<TlsCertInfoView> {
    match c {
        Some(t) => Some(t@),
        None => None,
    }
}

/// The largest confidence a fingerprint can carry, in hundredths.
pub const MAX_CONFIDENCE: u8 = 99;

/// The inferred identity of the service behind one port.
///
/// `confidence` counts hundredths: 90 stands for a certainty of 0.90. It
/// never exceeds [`MAX_CONFIDENCE`] in a fingerprint that the engine produced.
#[derive(Debug)]
pub struct Fingerprint {
    pub port: u16,
    pub protocol: String,
    pub product: String,
    pub version: String,
    pub confidence: u8,
    pub evidence: Vec<String>,
    pub tls_cert: Option<TlsCertInfo>,
    pub cpe: Option<String>,
}

/// What a [`Fingerprint`] holds.
pub struct FingerprintView {
    pub port: u16,
    pub protocol: Seq<char>,
    pub product: Seq<char>,
    pub version: Seq<char>,
    pub confidence: u8,
    pub evidence: Seq<Seq<char>>,
    pub tls_cert: Option<TlsCertInfoView>,
    pub cpe: Option<Seq<char>>,
}

/// The characters of each string of a sequence, in order.
pub open spec fn texts(lines: Seq<String>) -> Seq<Seq<char>> {
    Seq::new(lines.len(), |i: int| lines[i]@)
}

impl View for Fingerprint {
    type V = FingerprintView;

    open spec fn view(&self) -> FingerprintView {
        FingerprintView {
            port: self.port,
            protocol: self.protocol@,
            product: self.product@,
            version: self.version@,
            confidence: self.confidence,
            evidence: texts(self.evidence@),
            tls_cert: opt_cert(self.tls_cert),
            cpe: opt_text(self.cpe),
        }
    }
}

/// The views of a sequence of fingerprints, in order.
pub open spec fn fingerprint_views(fps: Seq<Fingerprint>) -> Seq<FingerprintView> {
    Seq::new(fps.len(), |i: int| fps[i]@)
}

/// One host as a node of the inferred topology.
#[derive(Debug)]
pub struct TopoNode {
    pub id: String,
    pub label: String,
    pub node_type: String,
    pub ports: Vec<u16>,
    pub os: String,
}

/// What a [`TopoNode`] holds.
pub struct TopoNodeView {
    pub id: Seq<char>,
    pub label: Seq<char>,
    pub node_type: Seq<char>,
    pub ports: Seq<u16>,
    pub os: Seq<char>,
}

impl View for TopoNode {
    type V = TopoNodeView;

    open spec fn view(&self) -> TopoNodeView {
        TopoNodeView {
            id: self.id@,
            label: self.label@,
            node_type: self.node_type@,
            ports: self.ports@,
            os: self.os@,
        }
    }
}

/// The views of a sequence of nodes, in order.
pub open spec fn node_views(nodes: Seq<TopoNode>) -> Seq<TopoNodeView> {
    Seq::new(nodes.len(), |i: int| nodes[i]@)
}

/// An inferred adjacency between two hosts, with the reason for it.
#[derive(Debug)]
pub struct TopoEdge {
    pub source: String,
    pub target: String,
    pub evidence: String,
}

/// What a [`TopoEdge`] holds.
pub struct TopoEdgeView {
    pub source: Seq<char>,
    pub target: Seq<char>,
    pub evidence: Seq<char>,
}

impl View for TopoEdge {
    type V = TopoEdgeView;

    open spec fn view(&self) -> TopoEdgeView {
        TopoEdgeView { source: self.source@, target: self.target@, evidence: self.evidence@ }
    }
}

/// The views of a sequence of edges, in order.
pub open spec fn edge_views(edges: Seq<TopoEdge>) -> Seq<TopoEdgeView> {
    Seq::new(edges.len(), |i: int| edges[i]@)
}

/// The inferred topology of an inventory.
#[derive(Debug)]
pub struct TopologyResult {
    pub nodes: Vec<TopoNode>,
    pub edges: Vec<TopoEdge>,
}

/// `std::path::PathBuf`, which the library carries and never looks into.
#[verifier::external_type_specification]
#[verifier::external_body]
pub struct ExPathBuf(std::path::PathBuf);

/// Where the engine keeps what it stores.
#[derive(Debug)]
pub struct AppState {
    pub data_dir: std::path::PathBuf,
}

impl AppState {
    /// The state of an engine that stores under `data_dir`.
    pub fn new(data_dir: std::path::PathBuf) -> (r: Self)
        ensures
            r.data_dir == data_dir,
    {
        Self { data_dir }
    }
}

} // verus!
