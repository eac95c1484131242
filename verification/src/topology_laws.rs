//! What holds of the edges of every inventory.

use crate::models::{HostView, TopoEdgeView};
use crate::text::{dot_count, lowercased};
use crate::topology::{
    distinct_ips, edge, edges_of, edges_through, gateway_row, gateway_rows, gateway_step,
    gateway_tag, group_edges, groups_of, has_gateway_edge, is_gateway_address,
    is_gateway_between, is_router, kind_of, lemma_member_indices_in_range, member_indices,
    node_kind, pair_row, pair_rows, same_subnet_tag, subnet_of, subnets,
};
use vstd::prelude::*;
use vstd::string::*;

verus! {

/// `e` carries the tag `tag` and has `ip` at one of its ends.
pub open spec fn touches(e: TopoEdgeView, ip: Seq<char>, tag: Seq<char>) -> bool {
    e.evidence == tag && (e.source == ip || e.target == ip)
}

/// How many edges with tag `tag` have `ip` at one of their ends.
pub open spec fn degree(edges: Seq<TopoEdgeView>, ip: Seq<char>, tag: Seq<char>) -> nat
    decreases edges.len(),
{
    if edges.len() == 0 {
        0
    } else {
        degree(edges.drop_last(), ip, tag) + if touches(edges.last(), ip, tag) {
            1nat
        } else {
            0nat
        }
    }
}

/// No member of the group has the address `ip`.
pub open spec fn foreign(hosts: Seq<HostView>, m: Seq<int>, ip: Seq<char>) -> bool {
    forall|k: int| 0 <= k < m.len() ==> hosts[#[trigger] m[k]].ip != ip
}

/// The two tags are different words.
pub proof fn lemma_tags_differ()
    ensures
        same_subnet_tag() != gateway_tag(),
{
    reveal_strlit("same-subnet");
    reveal_strlit("gateway");
    assert(same_subnet_tag().len() == 11);
    assert(gateway_tag().len() == 7);
}

proof fn lemma_degree_push(edges: Seq<TopoEdgeView>, e: TopoEdgeView, ip: Seq<char>, tag: Seq<char>)
    ensures
        degree(edges.push(e), ip, tag) == degree(edges, ip, tag) + if touches(e, ip, tag) {
            1nat
        } else {
            0nat
        },
{
    assert(edges.push(e).drop_last() =~= edges);
}

proof fn lemma_degree_zero(edges: Seq<TopoEdgeView>, ip: Seq<char>, tag: Seq<char>)
    requires
        degree(edges, ip, tag) == 0,
    ensures
        forall|k: int| 0 <= k < edges.len() ==> !touches(#[trigger] edges[k], ip, tag),
    decreases edges.len(),
{
    if edges.len() > 0 {
        lemma_degree_zero(edges.drop_last(), ip, tag);
        assert forall|k: int| 0 <= k < edges.len() implies !touches(
            #[trigger] edges[k],
            ip,
            tag,
        ) by {
            if k < edges.len() - 1 {
                assert(edges.drop_last()[k] == edges[k]);
            }
        }
    }
}

proof fn lemma_pair_row_degree(
    acc: Seq<TopoEdgeView>,
    hosts: Seq<HostView>,
    m: Seq<int>,
    i: int,
    upto: int,
    ip: Seq<char>,
    tag: Seq<char>,
)
    requires
        0 <= i < m.len(),
        upto <= m.len(),
        foreign(hosts, m, ip) || tag != same_subnet_tag(),
    ensures
        degree(pair_row(acc, hosts, m, i, upto), ip, tag) == degree(acc, ip, tag),
    decreases upto,
{
    if upto > i + 1 {
        lemma_pair_row_degree(acc, hosts, m, i, upto - 1, ip, tag);
        let e = edge(hosts[m[i]].ip, hosts[m[upto - 1]].ip, same_subnet_tag());
        lemma_degree_push(pair_row(acc, hosts, m, i, upto - 1), e, ip, tag);
    }
}

proof fn lemma_pair_rows_degree(
    acc: Seq<TopoEdgeView>,
    hosts: Seq<HostView>,
    m: Seq<int>,
    rows: int,
    ip: Seq<char>,
    tag: Seq<char>,
)
    requires
        rows <= m.len(),
        foreign(hosts, m, ip) || tag != same_subnet_tag(),
    ensures
        degree(pair_rows(acc, hosts, m, rows), ip, tag) == degree(acc, ip, tag),
    decreases rows,
{
    if rows > 0 {
        lemma_pair_rows_degree(acc, hosts, m, rows - 1, ip, tag);
        lemma_pair_row_degree(
            pair_rows(acc, hosts, m, rows - 1),
            hosts,
            m,
            rows - 1,
            m.len() as int,
            ip,
            tag,
        );
    }
}

proof fn lemma_gateway_row_degree(
    acc: Seq<TopoEdgeView>,
    hosts: Seq<HostView>,
    m: Seq<int>,
    i: int,
    upto: int,
    ip: Seq<char>,
    tag: Seq<char>,
)
    requires
        0 <= i < m.len(),
        upto <= m.len(),
        foreign(hosts, m, ip) || tag != gateway_tag(),
    ensures
        degree(gateway_row(acc, hosts, m, i, upto), ip, tag) == degree(acc, ip, tag),
    decreases upto,
{
    if upto > 0 {
        lemma_gateway_row_degree(acc, hosts, m, i, upto - 1, ip, tag);
        let prev = gateway_row(acc, hosts, m, i, upto - 1);
        let e = edge(hosts[m[i]].ip, hosts[m[upto - 1]].ip, gateway_tag());
        lemma_degree_push(prev, e, ip, tag);
    }
}

proof fn lemma_gateway_rows_degree(
    acc: Seq<TopoEdgeView>,
    hosts: Seq<HostView>,
    m: Seq<int>,
    rows: int,
    ip: Seq<char>,
    tag: Seq<char>,
)
    requires
        rows <= m.len(),
        foreign(hosts, m, ip) || tag != gateway_tag(),
    ensures
        degree(gateway_rows(acc, hosts, m, rows), ip, tag) == degree(acc, ip, tag),
    decreases rows,
{
    if rows > 0 {
        lemma_gateway_rows_degree(acc, hosts, m, rows - 1, ip, tag);
        lemma_gateway_row_degree(
            gateway_rows(acc, hosts, m, rows - 1),
            hosts,
            m,
            rows - 1,
            m.len() as int,
            ip,
            tag,
        );
    }
}

/// The edges of a group leave the degree of an address alone that no member
/// of the group has.
pub proof fn lemma_foreign_group(
    acc: Seq<TopoEdgeView>,
    hosts: Seq<HostView>,
    m: Seq<int>,
    ip: Seq<char>,
    tag: Seq<char>,
)
    requires
        foreign(hosts, m, ip),
    ensures
        degree(group_edges(acc, hosts, m), ip, tag) == degree(acc, ip, tag),
{
    lemma_pair_rows_degree(acc, hosts, m, m.len() as int, ip, tag);
    lemma_gateway_rows_degree(
        pair_rows(acc, hosts, m, m.len() as int),
        hosts,
        m,
        m.len() as int,
        ip,
        tag,
    );
}

/// The gateway edges from member `x` to the members before `upto`, where
/// nothing stands in their way.
pub open spec fn fan(hosts: Seq<HostView>, m: Seq<int>, x: int, upto: int) -> Seq<TopoEdgeView>
    decreases upto,
{
    if upto <= 0 {
        Seq::empty()
    } else if upto - 1 == x {
        fan(hosts, m, x, upto - 1)
    } else {
        fan(hosts, m, x, upto - 1).push(
            edge(hosts[m[x]].ip, hosts[m[upto - 1]].ip, gateway_tag()),
        )
    }
}

/// The members of the group have pairwise different addresses.
pub open spec fn distinct_members(hosts: Seq<HostView>, m: Seq<int>) -> bool {
    forall|a: int, b: int|
        0 <= a < m.len() && 0 <= b < m.len() && a != b ==> hosts[#[trigger] m[a]].ip
            != hosts[#[trigger] m[b]].ip
}

proof fn lemma_fan_elements(hosts: Seq<HostView>, m: Seq<int>, x: int, upto: int)
    requires
        0 <= x < m.len(),
        0 <= upto <= m.len(),
    ensures
        fan(hosts, m, x, upto).len() == upto - if x < upto {
            1int
        } else {
            0int
        },
        forall|k: int|
            0 <= k < fan(hosts, m, x, upto).len() ==> exists|j: int|
                0 <= j < upto && j != x && #[trigger] fan(hosts, m, x, upto)[k] == edge(
                    hosts[m[x]].ip,
                    hosts[m[j]].ip,
                    gateway_tag(),
                ),
    decreases upto,
{
    if upto > 0 {
        lemma_fan_elements(hosts, m, x, upto - 1);
        let prev = fan(hosts, m, x, upto - 1);
        let cur = fan(hosts, m, x, upto);
        assert forall|k: int| 0 <= k < cur.len() implies exists|j: int|
            0 <= j < upto && j != x && #[trigger] cur[k] == edge(
                hosts[m[x]].ip,
                hosts[m[j]].ip,
                gateway_tag(),
            ) by {
            if k < prev.len() {
                let j = choose|j: int|
                    0 <= j < upto - 1 && j != x && prev[k] == edge(
                        hosts[m[x]].ip,
                        hosts[m[j]].ip,
                        gateway_tag(),
                    );
                assert(cur[k] == prev[k]);
                assert(0 <= j < upto && j != x && cur[k] == edge(
                    hosts[m[x]].ip,
                    hosts[m[j]].ip,
                    gateway_tag(),
                ));
            } else {
                let j = upto - 1;
                assert(0 <= j < upto && j != x && cur[k] == edge(
                    hosts[m[x]].ip,
                    hosts[m[j]].ip,
                    gateway_tag(),
                ));
            }
        }
    }
}

proof fn lemma_gateway_row_is_fan(
    acc: Seq<TopoEdgeView>,
    hosts: Seq<HostView>,
    m: Seq<int>,
    x: int,
    upto: int,
)
    requires
        0 <= x < m.len(),
        0 <= upto <= m.len(),
        distinct_members(hosts, m),
        degree(acc, hosts[m[x]].ip, gateway_tag()) == 0,
    ensures
        gateway_row(acc, hosts, m, x, upto) == acc + fan(hosts, m, x, upto),
    decreases upto,
{
    let a = hosts[m[x]].ip;
    if upto <= 0 {
        assert(acc + fan(hosts, m, x, upto) =~= acc);
    } else {
        lemma_gateway_row_is_fan(acc, hosts, m, x, upto - 1);
        let before = fan(hosts, m, x, upto - 1);
        let prev = acc + before;
        let b = hosts[m[upto - 1]].ip;
        if upto - 1 == x {
            assert(gateway_step(prev, a, b) == prev);
        } else {
            assert(a != b);
            lemma_degree_zero(acc, a, gateway_tag());
            lemma_fan_elements(hosts, m, x, upto - 1);
            assert forall|k: int| 0 <= k < prev.len() implies !is_gateway_between(
                #[trigger] prev[k],
                a,
                b,
            ) by {
                if k < acc.len() {
                    assert(prev[k] == acc[k]);
                    assert(!touches(acc[k], a, gateway_tag()));
                } else {
                    let f = k - acc.len();
                    assert(prev[k] == before[f]);
                    let j = choose|j: int|
                        0 <= j < upto - 1 && j != x && before[f] == edge(
                            hosts[m[x]].ip,
                            hosts[m[j]].ip,
                            gateway_tag(),
                        );
                    assert(hosts[m[j]].ip != hosts[m[upto - 1]].ip);
                }
            }
            assert(!has_gateway_edge(prev, a, b));
            assert(prev.push(edge(a, b, gateway_tag())) =~= acc + fan(hosts, m, x, upto));
        }
    }
}

proof fn lemma_fan_degree(
    acc: Seq<TopoEdgeView>,
    hosts: Seq<HostView>,
    m: Seq<int>,
    x: int,
    upto: int,
)
    requires
        0 <= x < m.len(),
        0 <= upto <= m.len(),
    ensures
        degree(acc + fan(hosts, m, x, upto), hosts[m[x]].ip, gateway_tag()) == degree(
            acc,
            hosts[m[x]].ip,
            gateway_tag(),
        ) + upto - if x < upto {
            1int
        } else {
            0int
        },
    decreases upto,
{
    if upto <= 0 {
        assert(acc + fan(hosts, m, x, upto) =~= acc);
    } else {
        lemma_fan_degree(acc, hosts, m, x, upto - 1);
        if upto - 1 != x {
            let e = edge(hosts[m[x]].ip, hosts[m[upto - 1]].ip, gateway_tag());
            let prev = acc + fan(hosts, m, x, upto - 1);
            lemma_degree_push(prev, e, hosts[m[x]].ip, gateway_tag());
            assert(prev.push(e) =~= acc + fan(hosts, m, x, upto));
        }
    }
}

proof fn lemma_rows_of_single_router(
    acc: Seq<TopoEdgeView>,
    hosts: Seq<HostView>,
    m: Seq<int>,
    x: int,
    rows: int,
)
    requires
        0 <= x < m.len(),
        0 <= rows <= m.len(),
        forall|y: int| 0 <= y < m.len() ==> (is_router(hosts[#[trigger] m[y]]) <==> y == x),
    ensures
        gateway_rows(acc, hosts, m, rows) == if rows <= x {
            acc
        } else {
            gateway_row(acc, hosts, m, x, m.len() as int)
        },
    decreases rows,
{
    if rows > 0 {
        lemma_rows_of_single_router(acc, hosts, m, x, rows - 1);
    }
}

/// In a group whose only router is its member `x` and whose members have
/// pairwise different addresses, the router gets one gateway edge for every
/// other member, provided that no gateway edge at its address is there.
pub proof fn lemma_group_fan_out(
    acc: Seq<TopoEdgeView>,
    hosts: Seq<HostView>,
    m: Seq<int>,
    x: int,
)
    requires
        0 <= x < m.len(),
        distinct_members(hosts, m),
        forall|y: int| 0 <= y < m.len() ==> (is_router(hosts[#[trigger] m[y]]) <==> y == x),
        degree(acc, hosts[m[x]].ip, gateway_tag()) == 0,
    ensures
        degree(group_edges(acc, hosts, m), hosts[m[x]].ip, gateway_tag()) == m.len() - 1,
{
    let ip = hosts[m[x]].ip;
    let n = m.len() as int;
    let paired = pair_rows(acc, hosts, m, n);
    lemma_tags_differ();
    lemma_pair_rows_degree(acc, hosts, m, n, ip, gateway_tag());
    lemma_rows_of_single_router(paired, hosts, m, x, n);
    lemma_gateway_row_is_fan(paired, hosts, m, x, n);
    lemma_fan_degree(paired, hosts, m, x, n);
}

/// Every member of a group has the subnet of the group.
pub proof fn lemma_member_subnet(hosts: Seq<HostView>, key: Seq<char>)
    ensures
        forall|k: int|
            0 <= k < member_indices(hosts, key).len() ==> {
                let at = #[trigger] member_indices(hosts, key)[k];
                0 <= at < hosts.len() && subnet_of(hosts[at].ip) == Some(key)
            },
    decreases hosts.len(),
{
    if hosts.len() > 0 {
        let prev = member_indices(hosts.drop_last(), key);
        lemma_member_subnet(hosts.drop_last(), key);
        assert forall|k: int| 0 <= k < member_indices(hosts, key).len() implies {
            let at = #[trigger] member_indices(hosts, key)[k];
            0 <= at < hosts.len() && subnet_of(hosts[at].ip) == Some(key)
        } by {
            if k < prev.len() {
                assert(member_indices(hosts, key)[k] == prev[k]);
                assert(hosts.drop_last()[prev[k]] == hosts[prev[k]]);
            }
        }
    }
}

/// The members of a group stand in ascending order of index.
pub proof fn lemma_members_ascend(hosts: Seq<HostView>, key: Seq<char>)
    ensures
        forall|a: int, b: int|
            0 <= a < b < member_indices(hosts, key).len() ==> #[trigger] member_indices(
                hosts,
                key,
            )[a] < #[trigger] member_indices(hosts, key)[b],
    decreases hosts.len(),
{
    if hosts.len() > 0 {
        let prev = member_indices(hosts.drop_last(), key);
        lemma_members_ascend(hosts.drop_last(), key);
        lemma_member_indices_in_range(hosts.drop_last(), key);
        assert forall|a: int, b: int|
            0 <= a < b < member_indices(hosts, key).len() implies #[trigger] member_indices(
            hosts,
            key,
        )[a] < #[trigger] member_indices(hosts, key)[b] by {
            assert(member_indices(hosts, key)[a] == prev[a]);
            if b < prev.len() {
                assert(member_indices(hosts, key)[b] == prev[b]);
            }
        }
    }
}

/// No subnet is listed twice.
pub proof fn lemma_subnets_distinct(hosts: Seq<HostView>)
    ensures
        forall|a: int, b: int|
            0 <= a < b < subnets(hosts).len() ==> #[trigger] subnets(hosts)[a]
                != #[trigger] subnets(hosts)[b],
    decreases hosts.len(),
{
    if hosts.len() > 0 {
        let prev = subnets(hosts.drop_last());
        lemma_subnets_distinct(hosts.drop_last());
        assert forall|a: int, b: int| 0 <= a < b < subnets(hosts).len() implies #[trigger] subnets(
            hosts,
        )[a] != #[trigger] subnets(hosts)[b] by {
            assert(subnets(hosts)[a] == prev[a]);
            if b < prev.len() {
                assert(subnets(hosts)[b] == prev[b]);
            } else {
                assert(!prev.contains(subnets(hosts)[b]));
            }
        }
    }
}

proof fn lemma_pair_row_member(
    acc: Seq<TopoEdgeView>,
    hosts: Seq<HostView>,
    m: Seq<int>,
    x: int,
    i: int,
    upto: int,
)
    requires
        0 <= x < m.len(),
        0 <= i < m.len(),
        upto <= m.len(),
        distinct_members(hosts, m),
    ensures
        degree(pair_row(acc, hosts, m, i, upto), hosts[m[x]].ip, same_subnet_tag()) == degree(
            acc,
            hosts[m[x]].ip,
            same_subnet_tag(),
        ) + if i == x && upto > i + 1 {
            upto - (i + 1)
        } else if i < x && upto > x {
            1int
        } else {
            0int
        },
    decreases upto,
{
    if upto > i + 1 {
        lemma_pair_row_member(acc, hosts, m, x, i, upto - 1);
        let e = edge(hosts[m[i]].ip, hosts[m[upto - 1]].ip, same_subnet_tag());
        lemma_degree_push(
            pair_row(acc, hosts, m, i, upto - 1),
            e,
            hosts[m[x]].ip,
            same_subnet_tag(),
        );
        if i != x {
            assert(hosts[m[i]].ip != hosts[m[x]].ip);
        }
        if upto - 1 != x {
            assert(hosts[m[upto - 1]].ip != hosts[m[x]].ip);
        }
    }
}

proof fn lemma_pair_rows_member(
    acc: Seq<TopoEdgeView>,
    hosts: Seq<HostView>,
    m: Seq<int>,
    x: int,
    rows: int,
)
    requires
        0 <= x < m.len(),
        0 <= rows <= m.len(),
        distinct_members(hosts, m),
    ensures
        degree(pair_rows(acc, hosts, m, rows), hosts[m[x]].ip, same_subnet_tag()) == degree(
            acc,
            hosts[m[x]].ip,
            same_subnet_tag(),
        ) + if rows <= x {
            rows
        } else {
            m.len() - 1
        },
    decreases rows,
{
    if rows > 0 {
        lemma_pair_rows_member(acc, hosts, m, x, rows - 1);
        lemma_pair_row_member(
            pair_rows(acc, hosts, m, rows - 1),
            hosts,
            m,
            x,
            rows - 1,
            m.len() as int,
        );
    }
}

proof fn lemma_distinct_members(hosts: Seq<HostView>, key: Seq<char>)
    requires
        distinct_ips(hosts),
    ensures
        distinct_members(hosts, member_indices(hosts, key)),
{
    let m = member_indices(hosts, key);
    lemma_members_ascend(hosts, key);
    lemma_member_indices_in_range(hosts, key);
    assert forall|a: int, b: int|
        0 <= a < m.len() && 0 <= b < m.len() && a != b implies hosts[#[trigger] m[a]].ip
        != hosts[#[trigger] m[b]].ip by {
        if a < b {
            assert(m[a] < m[b]);
        } else {
            assert(m[b] < m[a]);
        }
    }
}

proof fn lemma_other_group_is_foreign(hosts: Seq<HostView>, g: int, x: int, c: int)
    requires
        0 <= g < groups_of(hosts).len(),
        0 <= c < groups_of(hosts).len(),
        c != g,
        0 <= x < groups_of(hosts)[g].members.len(),
    ensures
        foreign(hosts, groups_of(hosts)[c].members, hosts[groups_of(hosts)[g].members[x]].ip),
{
    let m = groups_of(hosts)[g].members;
    let mc = groups_of(hosts)[c].members;
    let ip = hosts[m[x]].ip;
    lemma_subnets_distinct(hosts);
    lemma_member_subnet(hosts, subnets(hosts)[g]);
    lemma_member_subnet(hosts, subnets(hosts)[c]);
    assert(subnets(hosts)[c] != subnets(hosts)[g]);
    assert forall|k: int| 0 <= k < mc.len() implies hosts[#[trigger] mc[k]].ip != ip by {
        assert(subnet_of(hosts[mc[k]].ip) == Some(subnets(hosts)[c]));
        assert(subnet_of(ip) == Some(subnets(hosts)[g]));
    }
}

proof fn lemma_pair_degree_through(hosts: Seq<HostView>, g: int, x: int, count: int)
    requires
        distinct_ips(hosts),
        0 <= g < groups_of(hosts).len(),
        0 <= x < groups_of(hosts)[g].members.len(),
        0 <= count <= groups_of(hosts).len(),
    ensures
        degree(
            edges_through(hosts, groups_of(hosts), count),
            hosts[groups_of(hosts)[g].members[x]].ip,
            same_subnet_tag(),
        ) == if count > g {
            groups_of(hosts)[g].members.len() - 1
        } else {
            0
        },
    decreases count,
{
    let groups = groups_of(hosts);
    let m = groups[g].members;
    let ip = hosts[m[x]].ip;
    if count > 0 {
        lemma_pair_degree_through(hosts, g, x, count - 1);
        let c = count - 1;
        let acc = edges_through(hosts, groups, c);
        let mc = groups[c].members;
        if c == g {
            lemma_distinct_members(hosts, subnets(hosts)[g]);
            lemma_tags_differ();
            lemma_pair_rows_member(acc, hosts, m, x, m.len() as int);
            lemma_gateway_rows_degree(
                pair_rows(acc, hosts, m, m.len() as int),
                hosts,
                m,
                m.len() as int,
                ip,
                same_subnet_tag(),
            );
        } else {
            lemma_other_group_is_foreign(hosts, g, x, c);
            lemma_foreign_group(acc, hosts, mc, ip, same_subnet_tag());
        }
    }
}

/// In an inventory of hosts with pairwise different addresses, every member
/// of a subnet group is at one end of as many same-subnet edges as the group
/// has other members.
pub proof fn same_subnet_degree(hosts: Seq<HostView>, g: int, x: int)
    requires
        distinct_ips(hosts),
        0 <= g < groups_of(hosts).len(),
        0 <= x < groups_of(hosts)[g].members.len(),
    ensures
        degree(edges_of(hosts), hosts[groups_of(hosts)[g].members[x]].ip, same_subnet_tag())
            == groups_of(hosts)[g].members.len() - 1,
{
    lemma_pair_degree_through(hosts, g, x, groups_of(hosts).len() as int);
}

proof fn lemma_degree_through(hosts: Seq<HostView>, g: int, x: int, count: int)
    requires
        distinct_ips(hosts),
        0 <= g < groups_of(hosts).len(),
        0 <= x < groups_of(hosts)[g].members.len(),
        forall|y: int|
            0 <= y < groups_of(hosts)[g].members.len() ==> (is_router(
                hosts[#[trigger] groups_of(hosts)[g].members[y]],
            ) <==> y == x),
        0 <= count <= groups_of(hosts).len(),
    ensures
        degree(
            edges_through(hosts, groups_of(hosts), count),
            hosts[groups_of(hosts)[g].members[x]].ip,
            gateway_tag(),
        ) == if count > g {
            groups_of(hosts)[g].members.len() - 1
        } else {
            0
        },
    decreases count,
{
    let groups = groups_of(hosts);
    let m = groups[g].members;
    let ip = hosts[m[x]].ip;
    if count > 0 {
        lemma_degree_through(hosts, g, x, count - 1);
        let c = count - 1;
        let acc = edges_through(hosts, groups, c);
        let mc = groups[c].members;
        if c == g {
            lemma_distinct_members(hosts, subnets(hosts)[g]);
            lemma_group_fan_out(acc, hosts, m, x);
        } else {
            lemma_other_group_is_foreign(hosts, g, x, c);
            lemma_foreign_group(acc, hosts, mc, ip, gateway_tag());
        }
    }
}

/// In an inventory of hosts with pairwise different addresses, take a subnet
/// group and a member of it that is the only router of the group. Then as
/// many gateway edges have that router at one end as the group has other
/// members, and as many same-subnet edges too.
pub proof fn gateway_fan_out(hosts: Seq<HostView>, g: int, x: int)
    requires
        distinct_ips(hosts),
        0 <= g < groups_of(hosts).len(),
        0 <= x < groups_of(hosts)[g].members.len(),
        forall|y: int|
            0 <= y < groups_of(hosts)[g].members.len() ==> (is_router(
                hosts[#[trigger] groups_of(hosts)[g].members[y]],
            ) <==> y == x),
    ensures
        degree(edges_of(hosts), hosts[groups_of(hosts)[g].members[x]].ip, gateway_tag())
            == groups_of(hosts)[g].members.len() - 1,
        degree(edges_of(hosts), hosts[groups_of(hosts)[g].members[x]].ip, same_subnet_tag())
            == groups_of(hosts)[g].members.len() - 1,
{
    lemma_degree_through(hosts, g, x, groups_of(hosts).len() as int);
    same_subnet_degree(hosts, g, x);
}

/// No two gateway edges of `edges` join the same two addresses, in either
/// direction.
pub open spec fn gateway_edges_differ(edges: Seq<TopoEdgeView>) -> bool {
    forall|a: int, b: int|
        0 <= a < b < edges.len() && (#[trigger] edges[b]).evidence == gateway_tag()
            ==> !is_gateway_between(#[trigger] edges[a], edges[b].source, edges[b].target)
}

proof fn lemma_push_keeps_gateway_edges_apart(edges: Seq<TopoEdgeView>, e: TopoEdgeView)
    requires
        gateway_edges_differ(edges),
        e.evidence != gateway_tag() || !has_gateway_edge(edges, e.source, e.target),
    ensures
        gateway_edges_differ(edges.push(e)),
{
    let after = edges.push(e);
    assert forall|a: int, b: int|
        0 <= a < b < after.len() && (#[trigger] after[b]).evidence
            == gateway_tag() implies !is_gateway_between(
        #[trigger] after[a],
        after[b].source,
        after[b].target,
    ) by {
        assert(after[a] == edges[a]);
        if b < edges.len() {
            assert(after[b] == edges[b]);
        }
    }
}

proof fn lemma_pair_row_apart(
    acc: Seq<TopoEdgeView>,
    hosts: Seq<HostView>,
    m: Seq<int>,
    i: int,
    upto: int,
)
    requires
        gateway_edges_differ(acc),
    ensures
        gateway_edges_differ(pair_row(acc, hosts, m, i, upto)),
    decreases upto,
{
    if !(i < 0 || upto <= i + 1) {
        lemma_pair_row_apart(acc, hosts, m, i, upto - 1);
        lemma_tags_differ();
        lemma_push_keeps_gateway_edges_apart(
            pair_row(acc, hosts, m, i, upto - 1),
            edge(hosts[m[i]].ip, hosts[m[upto - 1]].ip, same_subnet_tag()),
        );
    }
}

proof fn lemma_pair_rows_apart(
    acc: Seq<TopoEdgeView>,
    hosts: Seq<HostView>,
    m: Seq<int>,
    rows: int,
)
    requires
        gateway_edges_differ(acc),
    ensures
        gateway_edges_differ(pair_rows(acc, hosts, m, rows)),
    decreases rows,
{
    if rows > 0 {
        lemma_pair_rows_apart(acc, hosts, m, rows - 1);
        lemma_pair_row_apart(
            pair_rows(acc, hosts, m, rows - 1),
            hosts,
            m,
            rows - 1,
            m.len() as int,
        );
    }
}

proof fn lemma_gateway_row_apart(
    acc: Seq<TopoEdgeView>,
    hosts: Seq<HostView>,
    m: Seq<int>,
    i: int,
    upto: int,
)
    requires
        gateway_edges_differ(acc),
    ensures
        gateway_edges_differ(gateway_row(acc, hosts, m, i, upto)),
    decreases upto,
{
    if upto > 0 {
        lemma_gateway_row_apart(acc, hosts, m, i, upto - 1);
        let prev = gateway_row(acc, hosts, m, i, upto - 1);
        let a = hosts[m[i]].ip;
        let b = hosts[m[upto - 1]].ip;
        if a != b && !has_gateway_edge(prev, a, b) {
            lemma_push_keeps_gateway_edges_apart(prev, edge(a, b, gateway_tag()));
        }
    }
}

proof fn lemma_gateway_rows_apart(
    acc: Seq<TopoEdgeView>,
    hosts: Seq<HostView>,
    m: Seq<int>,
    rows: int,
)
    requires
        gateway_edges_differ(acc),
    ensures
        gateway_edges_differ(gateway_rows(acc, hosts, m, rows)),
    decreases rows,
{
    if rows > 0 {
        lemma_gateway_rows_apart(acc, hosts, m, rows - 1);
        lemma_gateway_row_apart(
            gateway_rows(acc, hosts, m, rows - 1),
            hosts,
            m,
            rows - 1,
            m.len() as int,
        );
    }
}

proof fn lemma_edges_through_apart(hosts: Seq<HostView>, count: int)
    ensures
        gateway_edges_differ(edges_through(hosts, groups_of(hosts), count)),
    decreases count,
{
    if count > 0 {
        lemma_edges_through_apart(hosts, count - 1);
        let acc = edges_through(hosts, groups_of(hosts), count - 1);
        let m = groups_of(hosts)[count - 1].members;
        lemma_pair_rows_apart(acc, hosts, m, m.len() as int);
        lemma_gateway_rows_apart(
            pair_rows(acc, hosts, m, m.len() as int),
            hosts,
            m,
            m.len() as int,
        );
    }
}

/// In every inventory, no two gateway edges join the same two addresses: a
/// gateway edge is left out where one between its two ends is there, whatever
/// its direction. Same-subnet edges do not count.
pub proof fn gateway_edges_are_not_repeated(hosts: Seq<HostView>)
    ensures
        gateway_edges_differ(edges_of(hosts)),
{
    lemma_edges_through_apart(hosts, groups_of(hosts).len() as int);
}

/// `longer` starts with `shorter`.
pub open spec fn extends(longer: Seq<TopoEdgeView>, shorter: Seq<TopoEdgeView>) -> bool {
    &&& shorter.len() <= longer.len()
    &&& forall|k: int| 0 <= k < shorter.len() ==> longer[k] == #[trigger] shorter[k]
}

proof fn lemma_extension_keeps(longer: Seq<TopoEdgeView>, shorter: Seq<TopoEdgeView>, e: TopoEdgeView)
    requires
        extends(longer, shorter),
        shorter.contains(e),
    ensures
        longer.contains(e),
{
    let k = choose|k: int| 0 <= k < shorter.len() && shorter[k] == e;
    assert(longer[k] == e);
}

proof fn lemma_pair_row_extends(
    acc: Seq<TopoEdgeView>,
    hosts: Seq<HostView>,
    m: Seq<int>,
    i: int,
    upto: int,
)
    ensures
        extends(pair_row(acc, hosts, m, i, upto), acc),
    decreases upto,
{
    if !(i < 0 || upto <= i + 1) {
        lemma_pair_row_extends(acc, hosts, m, i, upto - 1);
    }
}

proof fn lemma_pair_rows_extends(
    acc: Seq<TopoEdgeView>,
    hosts: Seq<HostView>,
    m: Seq<int>,
    rows: int,
)
    ensures
        extends(pair_rows(acc, hosts, m, rows), acc),
    decreases rows,
{
    if rows > 0 {
        lemma_pair_rows_extends(acc, hosts, m, rows - 1);
        lemma_pair_row_extends(
            pair_rows(acc, hosts, m, rows - 1),
            hosts,
            m,
            rows - 1,
            m.len() as int,
        );
    }
}

proof fn lemma_gateway_row_extends(
    acc: Seq<TopoEdgeView>,
    hosts: Seq<HostView>,
    m: Seq<int>,
    i: int,
    upto: int,
)
    ensures
        extends(gateway_row(acc, hosts, m, i, upto), acc),
    decreases upto,
{
    if upto > 0 {
        lemma_gateway_row_extends(acc, hosts, m, i, upto - 1);
    }
}

proof fn lemma_gateway_rows_extends(
    acc: Seq<TopoEdgeView>,
    hosts: Seq<HostView>,
    m: Seq<int>,
    rows: int,
)
    ensures
        extends(gateway_rows(acc, hosts, m, rows), acc),
    decreases rows,
{
    if rows > 0 {
        lemma_gateway_rows_extends(acc, hosts, m, rows - 1);
        lemma_gateway_row_extends(
            gateway_rows(acc, hosts, m, rows - 1),
            hosts,
            m,
            rows - 1,
            m.len() as int,
        );
    }
}

proof fn lemma_edges_through_extends(hosts: Seq<HostView>, from: int, count: int)
    requires
        0 <= from <= count,
    ensures
        extends(
            edges_through(hosts, groups_of(hosts), count),
            edges_through(hosts, groups_of(hosts), from),
        ),
    decreases count - from,
{
    if from < count {
        lemma_edges_through_extends(hosts, from, count - 1);
        let acc = edges_through(hosts, groups_of(hosts), count - 1);
        let m = groups_of(hosts)[count - 1].members;
        lemma_pair_rows_extends(acc, hosts, m, m.len() as int);
        lemma_gateway_rows_extends(
            pair_rows(acc, hosts, m, m.len() as int),
            hosts,
            m,
            m.len() as int,
        );
    }
}

proof fn lemma_pair_row_holds(
    acc: Seq<TopoEdgeView>,
    hosts: Seq<HostView>,
    m: Seq<int>,
    i: int,
    j: int,
    upto: int,
)
    requires
        0 <= i < j < upto,
    ensures
        pair_row(acc, hosts, m, i, upto).contains(
            edge(hosts[m[i]].ip, hosts[m[j]].ip, same_subnet_tag()),
        ),
    decreases upto,
{
    let e = edge(hosts[m[i]].ip, hosts[m[j]].ip, same_subnet_tag());
    let prev = pair_row(acc, hosts, m, i, upto - 1);
    if j == upto - 1 {
        assert(prev.push(e)[prev.len() as int] == e);
    } else {
        lemma_pair_row_holds(acc, hosts, m, i, j, upto - 1);
        let k = choose|k: int| 0 <= k < prev.len() && prev[k] == e;
        assert(pair_row(acc, hosts, m, i, upto)[k] == e);
    }
}

proof fn lemma_pair_rows_hold(
    acc: Seq<TopoEdgeView>,
    hosts: Seq<HostView>,
    m: Seq<int>,
    i: int,
    j: int,
    rows: int,
)
    requires
        0 <= i < j < m.len(),
        i < rows,
    ensures
        pair_rows(acc, hosts, m, rows).contains(
            edge(hosts[m[i]].ip, hosts[m[j]].ip, same_subnet_tag()),
        ),
    decreases rows,
{
    let e = edge(hosts[m[i]].ip, hosts[m[j]].ip, same_subnet_tag());
    let prev = pair_rows(acc, hosts, m, rows - 1);
    if i == rows - 1 {
        lemma_pair_row_holds(prev, hosts, m, i, j, m.len() as int);
    } else {
        lemma_pair_rows_hold(acc, hosts, m, i, j, rows - 1);
        lemma_pair_row_extends(prev, hosts, m, rows - 1, m.len() as int);
        lemma_extension_keeps(pair_rows(acc, hosts, m, rows), prev, e);
    }
}

/// In every inventory, every two members of a subnet group are joined by a
/// same-subnet edge, from the one that comes first in the inventory to the
/// other.
pub proof fn same_subnet_edges_are_complete(hosts: Seq<HostView>, g: int, i: int, j: int)
    requires
        0 <= g < groups_of(hosts).len(),
        0 <= i < j < groups_of(hosts)[g].members.len(),
    ensures
        edges_of(hosts).contains(
            edge(
                hosts[groups_of(hosts)[g].members[i]].ip,
                hosts[groups_of(hosts)[g].members[j]].ip,
                same_subnet_tag(),
            ),
        ),
{
    let groups = groups_of(hosts);
    let m = groups[g].members;
    let n = m.len() as int;
    let e = edge(hosts[m[i]].ip, hosts[m[j]].ip, same_subnet_tag());
    let acc = edges_through(hosts, groups, g);
    let paired = pair_rows(acc, hosts, m, n);
    lemma_pair_rows_hold(acc, hosts, m, i, j, n);
    lemma_gateway_rows_extends(paired, hosts, m, n);
    lemma_extension_keeps(edges_through(hosts, groups, g + 1), paired, e);
    lemma_edges_through_extends(hosts, g + 1, groups.len() as int);
    lemma_extension_keeps(edges_of(hosts), edges_through(hosts, groups, g + 1), e);
}

/// An address that has not exactly four parts between three dots fails
/// quietly: it is no gateway's and belongs to no subnet, so the role of its
/// host rests on vendor and ports alone, and the host is in no group.
pub proof fn malformed_address_fails_quietly(h: HostView)
    requires
        dot_count(h.ip) != 3,
    ensures
        !is_gateway_address(h.ip),
        subnet_of(h.ip) is None,
        node_kind(h) == kind_of(false, lowercased(h.vendor), h.ports),
        forall|hosts: Seq<HostView>, key: Seq<char>, k: int|
            0 <= k < member_indices(hosts, key).len() ==> hosts[#[trigger] member_indices(
                hosts,
                key,
            )[k]].ip != h.ip,
{
    assert forall|hosts: Seq<HostView>, key: Seq<char>, k: int|
        0 <= k < member_indices(hosts, key).len() implies hosts[#[trigger] member_indices(
        hosts,
        key,
    )[k]].ip != h.ip by {
        lemma_member_subnet(hosts, key);
    }
}

} // verus!
