//! Device roles and a plausible adjacency graph over a host inventory.
//!
//! Every host becomes one node. Hosts whose address has exactly three dots are
//! grouped by everything up to and including the third dot; groups stand in
//! the order in which their first host appears in the inventory. Within a
//! group every pair of hosts gets one "same-subnet" edge, and every router of
//! the group gets a "gateway" edge to every member with another address,
//! unless a gateway edge between the two addresses is already there.

use crate::models::{
    edge_views, host_views, node_views, opt_text, texts, Host, HostView, TopoEdge, TopoEdgeView,
    TopoNode, TopoNodeView, TopologyResult,
};
use crate::text::{
    chars_of, contains, dot_count, is_substring, last_dot, lowercased, parse_decimal,
    parse_unsigned, scan_dots, str_eq, to_lowercase,
};
use vstd::prelude::*;
use vstd::string::*;

verus! {

/// The role that a host is taken to play.
#[derive(Clone, Copy, Debug, PartialEq, Eq, Structural)]
pub enum NodeKind {
    Router,
    Server,
    Iot,
    Workstation,
    Unknown,
}

/// The name under which a role is reported.
pub open spec fn kind_name(kind: NodeKind) -> Seq<char> {
    match kind {
        NodeKind::Router => "router"@,
        NodeKind::Server => "server"@,
        NodeKind::Iot => "iot"@,
        NodeKind::Workstation => "workstation"@,
        NodeKind::Unknown => "unknown"@,
    }
}

impl NodeKind {
    /// The name under which this role is reported.
    pub fn name(self) -> (r: &'static str)
        ensures
            r@ == kind_name(self),
    {
        match self {
            NodeKind::Router => "router",
            NodeKind::Server => "server",
            NodeKind::Iot => "iot",
            NodeKind::Workstation => "workstation",
            NodeKind::Unknown => "unknown",
        }
    }
}

/// What follows the last dot of an address.
pub open spec fn last_segment(ip: Seq<char>) -> Seq<char> {
    ip.subrange(last_dot(ip) + 1, ip.len() as int)
}

/// The address has four parts between three dots, and the last part reads as
/// the number 1 or 254. An address of another shape is no gateway's.
pub open spec fn is_gateway_address(ip: Seq<char>) -> bool {
    let octet = parse_unsigned(last_segment(ip), 255);
    dot_count(ip) == 3 && (octet == Some(1nat) || octet == Some(254nat))
}

/// Whether the address ends in what is usually a gateway's number: it has
/// exactly three dots, and the text after the last one parses as an 8-bit
/// number that is 1 or 254.
pub fn is_likely_gateway(ip: &str) -> (r: bool)
    ensures
        r == is_gateway_address(ip@),
{
    let v = chars_of(ip);
    let dots = scan_dots(&v);
    if dots.0 != 3 {
        return false;
    }
    match parse_decimal(&v, dots.1, v.len(), 255) {
        Some(n) => n == 1 || n == 254,
        None => false,
    }
}

/// The subnet that an address is grouped under: everything up to and
/// including its third dot, if it has exactly three.
pub open spec fn subnet_of(ip: Seq<char>) -> Option<Seq<char>> {
    if dot_count(ip) == 3 {
        Some(ip.subrange(0, last_dot(ip) + 1))
    } else {
        None
    }
}

/// The subnet of `ip`, if it has one.
pub fn subnet_key(ip: &str) -> (r: Option<String>)
    ensures
        match r {
            Some(k) => subnet_of(ip@) == Some(k@),
            None => subnet_of(ip@) is None,
        },
{
    let v = chars_of(ip);
    let dots = scan_dots(&v);
    if dots.0 == 3 {
        Some(ip.substring_char(0, dots.1).to_owned())
    } else {
        None
    }
}

/// A port on which servers listen.
pub open spec fn is_server_port(p: u16) -> bool {
    p == 53 || p == 80 || p == 443 || p == 8080 || p == 8443 || p == 25 || p == 993 || p == 995
        || p == 3306 || p == 5432 || p == 27017
}

/// A port of remote access to a workstation.
pub open spec fn is_workstation_port(p: u16) -> bool {
    p == 22 || p == 3389 || p == 5900
}

/// Some port of the list is a server port.
pub open spec fn exposes_server_port(ports: Seq<u16>) -> bool {
    exists|i: int| 0 <= i < ports.len() && is_server_port(#[trigger] ports[i])
}

/// Some port of the list is a workstation port.
pub open spec fn exposes_workstation_port(ports: Seq<u16>) -> bool {
    exists|i: int| 0 <= i < ports.len() && is_workstation_port(#[trigger] ports[i])
}

/// The lowercase vendor name holds the name of a maker of network gear.
pub open spec fn names_router_vendor(vendor: Seq<char>) -> bool {
    ||| is_substring("cisco"@, vendor)
    ||| is_substring("ubiquiti"@, vendor)
    ||| is_substring("juniper"@, vendor)
    ||| is_substring("mikrotik"@, vendor)
    ||| is_substring("netgear"@, vendor)
    ||| is_substring("tp-link"@, vendor)
}

/// The lowercase vendor name holds the name of a maker of connected devices.
pub open spec fn names_iot_vendor(vendor: Seq<char>) -> bool {
    ||| is_substring("nest"@, vendor)
    ||| is_substring("ring"@, vendor)
    ||| is_substring("wyze"@, vendor)
    ||| is_substring("sonos"@, vendor)
    ||| is_substring("philips"@, vendor)
    ||| is_substring("ecobee"@, vendor)
    ||| is_substring("chamberlain"@, vendor)
    ||| is_substring("espressif"@, vendor)
    ||| is_substring("tuya"@, vendor)
    ||| is_substring("shenzhen"@, vendor)
}

/// The role of a host, by the first rule that applies: a gateway address or a
/// network vendor makes a router, a server port a server, a device vendor a
/// connected device, a remote-access port a workstation. A host to which no
/// rule applies is unknown.
pub open spec fn kind_of(gateway: bool, vendor_lower: Seq<char>, ports: Seq<u16>) -> NodeKind {
    if gateway || names_router_vendor(vendor_lower) {
        NodeKind::Router
    } else if exposes_server_port(ports) {
        NodeKind::Server
    } else if names_iot_vendor(vendor_lower) {
        NodeKind::Iot
    } else if exposes_workstation_port(ports) {
        NodeKind::Workstation
    } else {
        NodeKind::Unknown
    }
}

/// The role of a host.
pub open spec fn node_kind(h: HostView) -> NodeKind {
    kind_of(is_gateway_address(h.ip), lowercased(h.vendor), h.ports)
}

/// The host is classified as a router.
pub open spec fn is_router(h: HostView) -> bool {
    node_kind(h) == NodeKind::Router
}

fn has_server_port(ports: &Vec<u16>) -> (r: bool)
    ensures
        r == exposes_server_port(ports@),
{
    let n: usize = ports.len();
    let mut i: usize = 0;
    while i < n
        invariant
            i <= n,
            n == ports@.len(),
            forall|k: int| 0 <= k < i ==> !is_server_port(#[trigger] ports@[k]),
        decreases n - i,
    {
        let p: u16 = ports[i];
        if p == 53 || p == 80 || p == 443 || p == 8080 || p == 8443 || p == 25 || p == 993 || p
            == 995 || p == 3306 || p == 5432 || p == 27017 {
            return true;
        }
        i += 1;
    }
    false
}

fn has_workstation_port(ports: &Vec<u16>) -> (r: bool)
    ensures
        r == exposes_workstation_port(ports@),
{
    let n: usize = ports.len();
    let mut i: usize = 0;
    while i < n
        invariant
            i <= n,
            n == ports@.len(),
            forall|k: int| 0 <= k < i ==> !is_workstation_port(#[trigger] ports@[k]),
        decreases n - i,
    {
        let p: u16 = ports[i];
        if p == 22 || p == 3389 || p == 5900 {
            return true;
        }
        i += 1;
    }
    false
}

fn is_router_vendor(vendor_lower: &str) -> (r: bool)
    ensures
        r == names_router_vendor(vendor_lower@),
{
    contains(vendor_lower, "cisco") || contains(vendor_lower, "ubiquiti") || contains(
        vendor_lower,
        "juniper",
    ) || contains(vendor_lower, "mikrotik") || contains(vendor_lower, "netgear") || contains(
        vendor_lower,
        "tp-link",
    )
}

fn is_iot_vendor(vendor_lower: &str) -> (r: bool)
    ensures
        r == names_iot_vendor(vendor_lower@),
{
    contains(vendor_lower, "nest") || contains(vendor_lower, "ring") || contains(
        vendor_lower,
        "wyze",
    ) || contains(vendor_lower, "sonos") || contains(vendor_lower, "philips") || contains(
        vendor_lower,
        "ecobee",
    ) || contains(vendor_lower, "chamberlain") || contains(vendor_lower, "espressif")
        || contains(vendor_lower, "tuya") || contains(vendor_lower, "shenzhen")
}

/// The role of a host, given whether its address is a gateway's, its vendor
/// name in lowercase, and its open ports.
pub fn classify(gateway: bool, vendor_lower: &str, ports: &Vec<u16>) -> (kind: NodeKind)
    ensures
        kind == kind_of(gateway, vendor_lower@, ports@),
{
    if gateway || is_router_vendor(vendor_lower) {
        NodeKind::Router
    } else if has_server_port(ports) {
        NodeKind::Server
    } else if is_iot_vendor(vendor_lower) {
        NodeKind::Iot
    } else if has_workstation_port(ports) {
        NodeKind::Workstation
    } else {
        NodeKind::Unknown
    }
}

fn kind_of_host(host: &Host) -> (kind: NodeKind)
    ensures
        kind == node_kind(host@),
{
    let vendor_lower = to_lowercase(host.vendor.as_str());
    classify(is_likely_gateway(host.ip.as_str()), vendor_lower.as_str(), &host.ports)
}

/// The name of the role of a host.
pub fn classify_node(host: &Host) -> (r: String)
    ensures
        r@ == kind_name(node_kind(host@)),
{
    kind_of_host(host).name().to_owned()
}

/// The label of a host: its name, or its address where it has no name or the
/// name `Unknown`.
pub open spec fn label_of(h: HostView) -> Seq<char> {
    if h.hostname.len() == 0 || h.hostname == "Unknown"@ {
        h.ip
    } else {
        h.hostname
    }
}

/// The node that stands for a host.
pub open spec fn node_of(h: HostView) -> TopoNodeView {
    TopoNodeView {
        id: h.ip,
        label: label_of(h),
        node_type: kind_name(node_kind(h)),
        ports: h.ports,
        os: h.os,
    }
}

/// The nodes of an inventory: one per host, in order.
pub open spec fn nodes_of(hosts: Seq<HostView>) -> Seq<TopoNodeView> {
    Seq::new(hosts.len(), |i: int| node_of(hosts[i]))
}

fn node_for(host: &Host, kind: NodeKind) -> (node: TopoNode)
    requires
        kind == node_kind(host@),
    ensures
        node@ == node_of(host@),
{
    let label = if host.hostname.as_str().is_empty() || str_eq(host.hostname.as_str(), "Unknown") {
        host.ip.clone()
    } else {
        host.hostname.clone()
    };
    TopoNode {
        id: host.ip.clone(),
        label,
        node_type: kind.name().to_owned(),
        ports: host.ports.clone(),
        os: host.os.clone(),
    }
}

/// The subnets of an inventory, each once, in the order in which their first
/// host appears.
pub open spec fn subnets(hosts: Seq<HostView>) -> Seq<Seq<char>>
    decreases hosts.len(),
{
    if hosts.len() == 0 {
        Seq::empty()
    } else {
        let prev = subnets(hosts.drop_last());
        match subnet_of(hosts.last().ip) {
            Some(k) => if prev.contains(k) {
                prev
            } else {
                prev.push(k)
            },
            None => prev,
        }
    }
}

/// The indices of the hosts of subnet `key`, in ascending order.
pub open spec fn member_indices(hosts: Seq<HostView>, key: Seq<char>) -> Seq<int>
    decreases hosts.len(),
{
    if hosts.len() == 0 {
        Seq::empty()
    } else {
        let prev = member_indices(hosts.drop_last(), key);
        if subnet_of(hosts.last().ip) == Some(key) {
            prev.push(hosts.len() - 1)
        } else {
            prev
        }
    }
}

/// The hosts of one subnet, by their indices in the inventory.
#[derive(Debug)]
pub struct SubnetGroup {
    pub subnet: String,
    pub members: Vec<usize>,
}

/// What a [`SubnetGroup`] holds.
pub struct SubnetGroupView {
    pub subnet: Seq<char>,
    pub members: Seq<int>,
}

/// The indices of a list as integers.
pub open spec fn indices(members: Seq<usize>) -> Seq<int> {
    Seq::new(members.len(), |k: int| members[k] as int)
}

impl View for SubnetGroup {
    type V = SubnetGroupView;

    open spec fn view(&self) -> SubnetGroupView {
        SubnetGroupView { subnet: self.subnet@, members: indices(self.members@) }
    }
}

/// The views of a sequence of groups, in order.
pub open spec fn group_views(groups: Seq<SubnetGroup>) -> Seq<SubnetGroupView> {
    Seq::new(groups.len(), |g: int| groups[g]@)
}

/// The subnet groups of an inventory, in the order of [`subnets`].
pub open spec fn groups_of(hosts: Seq<HostView>) -> Seq<SubnetGroupView> {
    let keys = subnets(hosts);
    Seq::new(
        keys.len(),
        |g: int| SubnetGroupView { subnet: keys[g], members: member_indices(hosts, keys[g]) },
    )
}

/// The members of a group are indices of hosts.
pub proof fn lemma_member_indices_in_range(hosts: Seq<HostView>, key: Seq<char>)
    ensures
        forall|k: int|
            0 <= k < member_indices(hosts, key).len() ==> 0 <= #[trigger] member_indices(
                hosts,
                key,
            )[k] < hosts.len(),
    decreases hosts.len(),
{
    if hosts.len() > 0 {
        let prev = member_indices(hosts.drop_last(), key);
        lemma_member_indices_in_range(hosts.drop_last(), key);
        assert forall|k: int| 0 <= k < member_indices(hosts, key).len() implies 0
            <= #[trigger] member_indices(hosts, key)[k] < hosts.len() by {
            if k < prev.len() {
                assert(member_indices(hosts, key)[k] == prev[k]);
            }
        }
    }
}

fn holds_text(keys: &Vec<String>, key: &str) -> (r: bool)
    ensures
        r == texts(keys@).contains(key@),
{
    let ghost t = texts(keys@);
    let n: usize = keys.len();
    let mut i: usize = 0;
    while i < n
        invariant
            i <= n,
            n == keys@.len(),
            t == texts(keys@),
            forall|k: int| 0 <= k < i ==> t[k] != key@,
        decreases n - i,
    {
        assert(t[i as int] == keys@[i as int]@);
        if str_eq(keys[i].as_str(), key) {
            return true;
        }
        i += 1;
    }
    false
}

fn host_subnets(hosts: &[Host]) -> (keys: Vec<Option<String>>)
    ensures
        keys@.len() == hosts@.len(),
        forall|i: int|
            0 <= i < hosts@.len() ==> opt_text(#[trigger] keys@[i]) == subnet_of(
                hosts@[i]@.ip,
            ),
{
    let mut keys: Vec<Option<String>> = Vec::new();
    let n: usize = hosts.len();
    let mut i: usize = 0;
    while i < n
        invariant
            i <= n,
            n == hosts@.len(),
            keys@.len() == i,
            forall|k: int|
                0 <= k < i ==> opt_text(#[trigger] keys@[k]) == subnet_of(
                    hosts@[k]@.ip,
                ),
        decreases n - i,
    {
        let key = subnet_key(hosts[i].ip.as_str());
        keys.push(key);
        i += 1;
    }
    keys
}

fn members_with(keys: &Vec<Option<String>>, key: &str, Ghost(hosts): Ghost<Seq<HostView>>) -> (members:
    Vec<usize>)
    requires
        keys@.len() == hosts.len(),
        forall|i: int|
            0 <= i < hosts.len() ==> opt_text(#[trigger] keys@[i]) == subnet_of(
                hosts[i].ip,
            ),
    ensures
        indices(members@) == member_indices(hosts, key@),
        forall|k: int| 0 <= k < members@.len() ==> (#[trigger] members@[k]) < hosts.len(),
{
    let mut members: Vec<usize> = Vec::new();
    let n: usize = keys.len();
    let mut i: usize = 0;
    assert(hosts.take(0) =~= Seq::<HostView>::empty());
    assert(indices(members@) =~= member_indices(hosts.take(0), key@));
    while i < n
        invariant
            i <= n,
            n == keys@.len(),
            keys@.len() == hosts.len(),
            forall|k: int|
                0 <= k < hosts.len() ==> opt_text(#[trigger] keys@[k]) == subnet_of(
                    hosts[k].ip,
                ),
            indices(members@) == member_indices(hosts.take(i as int), key@),
            forall|k: int| 0 <= k < members@.len() ==> (#[trigger] members@[k]) < hosts.len(),
        decreases n - i,
    {
        assert(hosts.take(i + 1).drop_last() =~= hosts.take(i as int));
        assert(hosts.take(i + 1).last() == hosts[i as int]);
        let ghost before = members@;
        let same = match &keys[i] {
            Some(k) => str_eq(k.as_str(), key),
            None => false,
        };
        if same {
            members.push(i);
            assert(indices(members@) =~= indices(before).push(i as int));
        }
        i += 1;
    }
    assert(hosts.take(n as int) =~= hosts);
    members
}

/// The hosts of an inventory grouped by subnet. A host whose address has not
/// exactly three dots is in no group.
pub fn group_by_subnet(hosts: &[Host]) -> (groups: Vec<SubnetGroup>)
    ensures
        group_views(groups@) == groups_of(host_views(hosts@)),
        forall|g: int, k: int|
            0 <= g < groups@.len() && 0 <= k < groups@[g].members@.len() ==> (
            #[trigger] groups@[g].members@[k]) < hosts@.len(),
{
    let ghost hv = host_views(hosts@);
    let keys = host_subnets(hosts);
    let n: usize = hosts.len();
    let mut found: Vec<String> = Vec::new();
    let mut i: usize = 0;
    assert(hv.take(0) =~= Seq::<HostView>::empty());
    assert(texts(found@) =~= subnets(hv.take(0)));
    while i < n
        invariant
            i <= n,
            n == hosts@.len(),
            hv == host_views(hosts@),
            keys@.len() == n,
            forall|k: int|
                0 <= k < n ==> opt_text(#[trigger] keys@[k]) == subnet_of(hv[k].ip),
            texts(found@) == subnets(hv.take(i as int)),
        decreases n - i,
    {
        assert(hv.take(i + 1).drop_last() =~= hv.take(i as int));
        assert(hv.take(i + 1).last() == hv[i as int]);
        let ghost before = found@;
        match &keys[i] {
            Some(k) => {
                if !holds_text(&found, k.as_str()) {
                    found.push(k.clone());
                    assert(texts(found@) =~= texts(before).push(
                        k@,
                    ));
                }
            },
            None => {},
        }
        i += 1;
    }
    assert(hv.take(n as int) =~= hv);
    let mut groups: Vec<SubnetGroup> = Vec::new();
    let total: usize = found.len();
    let mut g: usize = 0;
    while g < total
        invariant
            g <= total,
            total == found@.len(),
            hv == host_views(hosts@),
            keys@.len() == hv.len(),
            forall|k: int|
                0 <= k < hv.len() ==> opt_text(#[trigger] keys@[k]) == subnet_of(
                    hv[k].ip,
                ),
            texts(found@) == subnets(hv),
            groups@.len() == g,
            forall|a: int|
                0 <= a < g ==> (#[trigger] groups@[a])@ == (SubnetGroupView {
                    subnet: subnets(hv)[a],
                    members: member_indices(hv, subnets(hv)[a]),
                }),
            forall|a: int, k: int|
                0 <= a < g && 0 <= k < groups@[a].members@.len() ==> (
                #[trigger] groups@[a].members@[k]) < hv.len(),
        decreases total - g,
    {
        assert(texts(found@)[g as int] == found@[g as int]@);
        let members = members_with(&keys, found[g].as_str(), Ghost(hv));
        groups.push(SubnetGroup { subnet: found[g].clone(), members });
        g += 1;
    }
    assert(group_views(groups@) =~= groups_of(hv));
    groups
}

/// The tag of an edge between two hosts of one subnet.
pub open spec fn same_subnet_tag() -> Seq<char> {
    "same-subnet"@
}

/// The tag of an edge from a router to a host of its subnet.
pub open spec fn gateway_tag() -> Seq<char> {
    "gateway"@
}

/// The edge from `a` to `b` with the given tag.
pub open spec fn edge(a: Seq<char>, b: Seq<char>, tag: Seq<char>) -> TopoEdgeView {
    TopoEdgeView { source: a, target: b, evidence: tag }
}

/// `acc`, then the same-subnet edges from member `i` to the members after it
/// and before `upto`.
pub open spec fn pair_row(
    acc: Seq<TopoEdgeView>,
    hosts: Seq<HostView>,
    m: Seq<int>,
    i: int,
    upto: int,
) -> Seq<TopoEdgeView>
    decreases upto,
{
    if i < 0 || upto <= i + 1 {
        acc
    } else {
        pair_row(acc, hosts, m, i, upto - 1).push(
            edge(hosts[m[i]].ip, hosts[m[upto - 1]].ip, same_subnet_tag()),
        )
    }
}

/// `acc`, then the same-subnet edges of the first `rows` members, each to all
/// members after it.
pub open spec fn pair_rows(
    acc: Seq<TopoEdgeView>,
    hosts: Seq<HostView>,
    m: Seq<int>,
    rows: int,
) -> Seq<TopoEdgeView>
    decreases rows,
{
    if rows <= 0 {
        acc
    } else {
        pair_row(pair_rows(acc, hosts, m, rows - 1), hosts, m, rows - 1, m.len() as int)
    }
}

/// `e` is a gateway edge between `a` and `b`, in either direction.
pub open spec fn is_gateway_between(e: TopoEdgeView, a: Seq<char>, b: Seq<char>) -> bool {
    e.evidence == gateway_tag() && ((e.source == a && e.target == b) || (e.source == b
        && e.target == a))
}

/// Some edge of `edges` is a gateway edge between `a` and `b`.
pub open spec fn has_gateway_edge(edges: Seq<TopoEdgeView>, a: Seq<char>, b: Seq<char>) -> bool {
    exists|k: int| 0 <= k < edges.len() && is_gateway_between(#[trigger] edges[k], a, b)
}

/// `acc`, then the gateway edge from `a` to `b` unless the two addresses are
/// the same or a gateway edge between them is there.
pub open spec fn gateway_step(acc: Seq<TopoEdgeView>, a: Seq<char>, b: Seq<char>) -> Seq<
    TopoEdgeView,
> {
    if a != b && !has_gateway_edge(acc, a, b) {
        acc.push(edge(a, b, gateway_tag()))
    } else {
        acc
    }
}

/// `acc`, then the gateway edges from member `i` to the members before
/// `upto`, in order.
pub open spec fn gateway_row(
    acc: Seq<TopoEdgeView>,
    hosts: Seq<HostView>,
    m: Seq<int>,
    i: int,
    upto: int,
) -> Seq<TopoEdgeView>
    decreases upto,
{
    if upto <= 0 {
        acc
    } else {
        gateway_step(
            gateway_row(acc, hosts, m, i, upto - 1),
            hosts[m[i]].ip,
            hosts[m[upto - 1]].ip,
        )
    }
}

/// `acc`, then the gateway edges of the routers among the first `rows`
/// members, in order.
pub open spec fn gateway_rows(
    acc: Seq<TopoEdgeView>,
    hosts: Seq<HostView>,
    m: Seq<int>,
    rows: int,
) -> Seq<TopoEdgeView>
    decreases rows,
{
    if rows <= 0 {
        acc
    } else {
        let prev = gateway_rows(acc, hosts, m, rows - 1);
        if is_router(hosts[m[rows - 1]]) {
            gateway_row(prev, hosts, m, rows - 1, m.len() as int)
        } else {
            prev
        }
    }
}

/// `acc`, then the edges of the group with members `m`: its same-subnet
/// edges, then its gateway edges.
pub open spec fn group_edges(acc: Seq<TopoEdgeView>, hosts: Seq<HostView>, m: Seq<int>) -> Seq<
    TopoEdgeView,
> {
    gateway_rows(pair_rows(acc, hosts, m, m.len() as int), hosts, m, m.len() as int)
}

/// The edges of the first `count` groups.
pub open spec fn edges_through(
    hosts: Seq<HostView>,
    groups: Seq<SubnetGroupView>,
    count: int,
) -> Seq<TopoEdgeView>
    decreases count,
{
    if count <= 0 {
        Seq::empty()
    } else {
        group_edges(edges_through(hosts, groups, count - 1), hosts, groups[count - 1].members)
    }
}

/// The edges of an inventory.
pub open spec fn edges_of(hosts: Seq<HostView>) -> Seq<TopoEdgeView> {
    edges_through(hosts, groups_of(hosts), groups_of(hosts).len() as int)
}

proof fn lemma_edge_views_push(s: Seq<TopoEdge>, e: TopoEdge)
    ensures
        edge_views(s.push(e)) == edge_views(s).push(e@),
{
    assert(edge_views(s.push(e)) =~= edge_views(s).push(e@));
}

fn push_edge(edges: &mut Vec<TopoEdge>, source: &String, target: &String, tag: &str)
    ensures
        edge_views(final(edges)@) == edge_views(old(edges)@).push(edge(source@, target@, tag@)),
{
    let e = TopoEdge { source: source.clone(), target: target.clone(), evidence: tag.to_owned() };
    proof {
        lemma_edge_views_push(edges@, e);
    }
    edges.push(e);
}

fn gateway_edge_exists(edges: &Vec<TopoEdge>, a: &str, b: &str) -> (r: bool)
    ensures
        r == has_gateway_edge(edge_views(edges@), a@, b@),
{
    let ghost ev = edge_views(edges@);
    let n: usize = edges.len();
    let mut k: usize = 0;
    while k < n
        invariant
            k <= n,
            n == edges@.len(),
            ev == edge_views(edges@),
            forall|x: int| 0 <= x < k ==> !is_gateway_between(#[trigger] ev[x], a@, b@),
        decreases n - k,
    {
        let e = &edges[k];
        assert(ev[k as int] == edges@[k as int]@);
        if str_eq(e.evidence.as_str(), "gateway") {
            let forward = str_eq(e.source.as_str(), a) && str_eq(e.target.as_str(), b);
            let backward = str_eq(e.source.as_str(), b) && str_eq(e.target.as_str(), a);
            if forward || backward {
                return true;
            }
        }
        k += 1;
    }
    false
}

fn add_group_edges(
    edges: &mut Vec<TopoEdge>,
    hosts: &[Host],
    routers: &Vec<bool>,
    members: &Vec<usize>,
)
    requires
        routers@.len() == hosts@.len(),
        forall|k: int|
            0 <= k < hosts@.len() ==> (#[trigger] routers@[k]) == is_router(hosts@[k]@),
        forall|k: int| 0 <= k < members@.len() ==> (#[trigger] members@[k]) < hosts@.len(),
    ensures
        edge_views(final(edges)@) == group_edges(
            edge_views(old(edges)@),
            host_views(hosts@),
            indices(members@),
        ),
{
    let ghost hv = host_views(hosts@);
    let ghost m = indices(members@);
    let ghost base = edge_views(edges@);
    let n: usize = members.len();
    let mut i: usize = 0;
    while i < n
        invariant
            i <= n,
            n == members@.len(),
            hv == host_views(hosts@),
            m == indices(members@),
            forall|k: int| 0 <= k < members@.len() ==> (#[trigger] members@[k]) < hosts@.len(),
            edge_views(edges@) == pair_rows(base, hv, m, i as int),
        decreases n - i,
    {
        let ghost row_base = edge_views(edges@);
        let mut j: usize = i + 1;
        while j < n
            invariant
                i < n,
                i + 1 <= j <= n,
                n == members@.len(),
                hv == host_views(hosts@),
                m == indices(members@),
                forall|k: int| 0 <= k < members@.len() ==> (#[trigger] members@[k]) < hosts@.len(),
                edge_views(edges@) == pair_row(row_base, hv, m, i as int, j as int),
            decreases n - j,
        {
            let a = &hosts[members[i]];
            let b = &hosts[members[j]];
            assert(hv[m[i as int]] == a@ && hv[m[j as int]] == b@);
            push_edge(edges, &a.ip, &b.ip, "same-subnet");
            j += 1;
        }
        i += 1;
    }
    let ghost paired = edge_views(edges@);
    let mut i: usize = 0;
    while i < n
        invariant
            i <= n,
            n == members@.len(),
            hv == host_views(hosts@),
            m == indices(members@),
            routers@.len() == hosts@.len(),
            forall|k: int|
                0 <= k < hosts@.len() ==> (#[trigger] routers@[k]) == is_router(hosts@[k]@),
            forall|k: int| 0 <= k < members@.len() ==> (#[trigger] members@[k]) < hosts@.len(),
            edge_views(edges@) == gateway_rows(paired, hv, m, i as int),
        decreases n - i,
    {
        let ghost row_base = edge_views(edges@);
        assert(hv[m[i as int]] == hosts@[members@[i as int] as int]@);
        if routers[members[i]] {
            let mut j: usize = 0;
            while j < n
                invariant
                    i < n,
                    j <= n,
                    n == members@.len(),
                    hv == host_views(hosts@),
                    m == indices(members@),
                    forall|k: int|
                        0 <= k < members@.len() ==> (#[trigger] members@[k]) < hosts@.len(),
                    edge_views(edges@) == gateway_row(row_base, hv, m, i as int, j as int),
                decreases n - j,
            {
                let a = &hosts[members[i]];
                let b = &hosts[members[j]];
                assert(hv[m[i as int]] == a@ && hv[m[j as int]] == b@);
                if !str_eq(b.ip.as_str(), a.ip.as_str()) {
                    if !gateway_edge_exists(edges, a.ip.as_str(), b.ip.as_str()) {
                        push_edge(edges, &a.ip, &b.ip, "gateway");
                    }
                }
                j += 1;
            }
        }
        i += 1;
    }
}

/// The topology of an inventory: one node per host, in order, and the edges
/// of its subnet groups.
pub fn build(hosts: &[Host]) -> (r: TopologyResult)
    ensures
        node_views(r.nodes@) == nodes_of(host_views(hosts@)),
        edge_views(r.edges@) == edges_of(host_views(hosts@)),
{
    let ghost hv = host_views(hosts@);
    let mut nodes: Vec<TopoNode> = Vec::new();
    let mut routers: Vec<bool> = Vec::new();
    let n: usize = hosts.len();
    let mut i: usize = 0;
    while i < n
        invariant
            i <= n,
            n == hosts@.len(),
            nodes@.len() == i,
            routers@.len() == i,
            forall|k: int| 0 <= k < i ==> (#[trigger] nodes@[k])@ == node_of(hosts@[k]@),
            forall|k: int| 0 <= k < i ==> (#[trigger] routers@[k]) == is_router(hosts@[k]@),
        decreases n - i,
    {
        let kind = kind_of_host(&hosts[i]);
        nodes.push(node_for(&hosts[i], kind));
        routers.push(kind == NodeKind::Router);
        i += 1;
    }
    assert(node_views(nodes@) =~= nodes_of(hv));
    let groups = group_by_subnet(hosts);
    let mut edges: Vec<TopoEdge> = Vec::new();
    let total: usize = groups.len();
    let mut g: usize = 0;
    assert(edge_views(edges@) =~= edges_through(hv, groups_of(hv), 0));
    while g < total
        invariant
            g <= total,
            total == groups@.len(),
            hv == host_views(hosts@),
            group_views(groups@) == groups_of(hv),
            routers@.len() == hosts@.len(),
            forall|k: int|
                0 <= k < hosts@.len() ==> (#[trigger] routers@[k]) == is_router(hosts@[k]@),
            forall|a: int, k: int|
                0 <= a < groups@.len() && 0 <= k < groups@[a].members@.len() ==> (
                #[trigger] groups@[a].members@[k]) < hosts@.len(),
            edge_views(edges@) == edges_through(hv, groups_of(hv), g as int),
        decreases total - g,
    {
        assert(group_views(groups@)[g as int] == groups@[g as int]@);
        add_group_edges(&mut edges, hosts, &routers, &groups[g].members);
        g += 1;
    }
    assert(group_views(groups@).len() == groups_of(hv).len());
    TopologyResult { nodes, edges }
}

/// No two hosts of the inventory have the same address.
pub open spec fn distinct_ips(hosts: Seq<HostView>) -> bool {
    forall|i: int, j: int|
        0 <= i < j < hosts.len() ==> (#[trigger] hosts[i]).ip != (#[trigger] hosts[j]).ip
}

/// An inventory has as many nodes as hosts, and each node carries the address
/// of its host as its identifier. Where the addresses of the hosts are
/// distinct, so are the identifiers of the nodes.
pub proof fn nodes_are_total(hosts: Seq<HostView>)
    ensures
        nodes_of(hosts).len() == hosts.len(),
        forall|i: int| 0 <= i < hosts.len() ==> (#[trigger] nodes_of(hosts)[i]).id == hosts[i].ip,
        distinct_ips(hosts) ==> forall|i: int, j: int|
            0 <= i < j < hosts.len() ==> (#[trigger] nodes_of(hosts)[i]).id != (
            #[trigger] nodes_of(hosts)[j]).id,
{
    if distinct_ips(hosts) {
        assert forall|i: int, j: int| 0 <= i < j < hosts.len() implies (#[trigger] nodes_of(
            hosts,
        )[i]).id != (#[trigger] nodes_of(hosts)[j]).id by {
            assert(hosts[i].ip != hosts[j].ip);
        }
    }
}

} // verus!
